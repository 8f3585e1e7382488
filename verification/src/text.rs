//! Text over UTF-8 bytes: whitespace trimming, line splitting, searching.
//!
//! Whitespace is Unicode's `White_Space` set (what `char::is_whitespace`
//! accepts), recognised by its UTF-8 encodings; lines end at `\n`, with a
//! `\r` directly before it dropped.

use vstd::prelude::*;

verus! {

/// An ASCII whitespace byte: tab, line feed, vertical tab, form feed,
/// carriage return, space.
pub open spec fn is_ascii_ws(b: u8) -> bool {
    b == 9 || b == 10 || b == 11 || b == 12 || b == 13 || b == 32
}

/// The length of the whitespace character encoded at `i`, or 0 when the
/// character there is not whitespace.
pub open spec fn ws_len_at(s: Seq<u8>, i: int) -> int {
    if !(0 <= i < s.len()) {
        0
    } else if is_ascii_ws(s[i]) {
        1
    } else if i + 2 <= s.len() && s[i] == 0xC2 && (s[i + 1] == 0x85 || s[i + 1] == 0xA0) {
        2
    } else if i + 3 <= s.len() && ws3(s[i], s[i + 1], s[i + 2]) {
        3
    } else {
        0
    }
}

/// A three-byte encoding of a whitespace character: U+1680, U+2000 to
/// U+200A, U+2028, U+2029, U+202F, U+205F, U+3000.
pub open spec fn ws3(a: u8, b: u8, c: u8) -> bool {
    (a == 0xE1 && b == 0x9A && c == 0x80) || (a == 0xE2 && b == 0x80 && ((0x80 <= c <= 0x8A) || c
        == 0xA8 || c == 0xA9 || c == 0xAF)) || (a == 0xE2 && b == 0x81 && c == 0x9F) || (a == 0xE3
        && b == 0x80 && c == 0x80)
}

/// The length of the whitespace character that ends just before `j`, or 0.
pub open spec fn ws_len_before(s: Seq<u8>, j: int) -> int {
    if !(0 < j <= s.len()) {
        0
    } else if is_ascii_ws(s[j - 1]) {
        1
    } else if j >= 2 && s[j - 2] == 0xC2 && (s[j - 1] == 0x85 || s[j - 1] == 0xA0) {
        2
    } else if j >= 3 && ws3(s[j - 3], s[j - 2], s[j - 1]) {
        3
    } else {
        0
    }
}

/// The first position at or after `i` that does not start a whitespace
/// character.
pub open spec fn skip_ws(s: Seq<u8>, i: int) -> int
    decreases s.len() - i,
{
    if 0 <= i < s.len() && ws_len_at(s, i) > 0 {
        skip_ws(s, i + ws_len_at(s, i))
    } else {
        i
    }
}

/// The end of `s` once whitespace characters ending at or before `j` are
/// stripped.
pub open spec fn back_ws(s: Seq<u8>, j: int) -> int
    decreases j,
{
    if 0 < j <= s.len() && ws_len_before(s, j) > 0 {
        back_ws(s, j - ws_len_before(s, j))
    } else {
        j
    }
}

pub open spec fn trim_start(s: Seq<u8>) -> Seq<u8> {
    s.subrange(skip_ws(s, 0), s.len() as int)
}

pub open spec fn trim_end(s: Seq<u8>) -> Seq<u8> {
    s.subrange(0, back_ws(s, s.len() as int))
}

pub open spec fn trim(s: Seq<u8>) -> Seq<u8> {
    trim_end(trim_start(s))
}

pub proof fn lemma_skip_ws_bounds(s: Seq<u8>, i: int)
    requires
        0 <= i <= s.len(),
    ensures
        i <= skip_ws(s, i) <= s.len(),
        skip_ws(s, i) < s.len() ==> ws_len_at(s, skip_ws(s, i)) == 0,
    decreases s.len() - i,
{
    if 0 <= i < s.len() && ws_len_at(s, i) > 0 {
        lemma_skip_ws_bounds(s, i + ws_len_at(s, i));
    }
}

pub proof fn lemma_back_ws_bounds(s: Seq<u8>, j: int)
    requires
        0 <= j <= s.len(),
    ensures
        0 <= back_ws(s, j) <= j,
    decreases j,
{
    if 0 < j <= s.len() && ws_len_before(s, j) > 0 {
        lemma_back_ws_bounds(s, j - ws_len_before(s, j));
    }
}

fn ws_len_at_exec(s: &[u8], i: usize) -> (r: usize)
    ensures
        r == ws_len_at(s@, i as int),
{
    if i >= s.len() {
        return 0;
    }
    let b = s[i];
    if b == 9 || b == 10 || b == 11 || b == 12 || b == 13 || b == 32 {
        return 1;
    }
    if s.len() - i >= 2 && b == 0xC2 && (s[i + 1] == 0x85 || s[i + 1] == 0xA0) {
        return 2;
    }
    if s.len() - i >= 3 {
        let (x, y) = (s[i + 1], s[i + 2]);
        if (b == 0xE1 && x == 0x9A && y == 0x80) || (b == 0xE2 && x == 0x80 && ((0x80 <= y && y
            <= 0x8A) || y == 0xA8 || y == 0xA9 || y == 0xAF)) || (b == 0xE2 && x == 0x81 && y
            == 0x9F) || (b == 0xE3 && x == 0x80 && y == 0x80) {
            return 3;
        }
    }
    0
}

fn ws_len_before_exec(s: &[u8], j: usize) -> (r: usize)
    ensures
        r == ws_len_before(s@, j as int),
{
    if j == 0 || j > s.len() {
        return 0;
    }
    let b = s[j - 1];
    if b == 9 || b == 10 || b == 11 || b == 12 || b == 13 || b == 32 {
        return 1;
    }
    if j >= 2 && s[j - 2] == 0xC2 && (b == 0x85 || b == 0xA0) {
        return 2;
    }
    if j >= 3 {
        let (a, x) = (s[j - 3], s[j - 2]);
        if (a == 0xE1 && x == 0x9A && b == 0x80) || (a == 0xE2 && x == 0x80 && ((0x80 <= b && b
            <= 0x8A) || b == 0xA8 || b == 0xA9 || b == 0xAF)) || (a == 0xE2 && x == 0x81 && b
            == 0x9F) || (a == 0xE3 && x == 0x80 && b == 0x80) {
            return 3;
        }
    }
    0
}

/// The position of the first non-whitespace character at or after `i`.
pub fn skip_ws_exec(s: &[u8], i: usize) -> (r: usize)
    requires
        i <= s@.len(),
    ensures
        r == skip_ws(s@, i as int),
        i <= r <= s@.len(),
{
    let mut k = i;
    while k < s.len() && ws_len_at_exec(s, k) > 0
        invariant
            i <= k <= s@.len(),
            skip_ws(s@, k as int) == skip_ws(s@, i as int),
        decreases s@.len() - k,
    {
        k = k + ws_len_at_exec(s, k);
    }
    proof {
        lemma_skip_ws_bounds(s@, i as int);
    }
    k
}

/// The end of `s[..j]` with trailing whitespace characters stripped.
pub fn back_ws_exec(s: &[u8], j: usize) -> (r: usize)
    requires
        j <= s@.len(),
    ensures
        r == back_ws(s@, j as int),
        r <= j,
{
    let mut k = j;
    while k > 0 && ws_len_before_exec(s, k) > 0
        invariant
            k <= j <= s@.len(),
            back_ws(s@, k as int) == back_ws(s@, j as int),
        decreases k,
    {
        k = k - ws_len_before_exec(s, k);
    }
    proof {
        lemma_back_ws_bounds(s@, j as int);
    }
    k
}

/// `s` with leading and trailing whitespace removed.
pub fn trim_exec(s: &[u8]) -> (r: Vec<u8>)
    ensures
        r@ == trim(s@),
{
    let a = skip_ws_exec(s, 0);
    let rest = crate::bytes::slice_to_vec(s, a, s.len());
    let b = back_ws_exec(rest.as_slice(), rest.len());
    crate::bytes::prefix(rest.as_slice(), b)
}

/// `s` with leading whitespace removed.
pub fn trim_start_exec(s: &[u8]) -> (r: Vec<u8>)
    ensures
        r@ == trim_start(s@),
{
    let a = skip_ws_exec(s, 0);
    crate::bytes::slice_to_vec(s, a, s.len())
}

/// `p` occurs in `s` at `i`.
pub open spec fn occurs_at(s: Seq<u8>, p: Seq<u8>, i: int) -> bool {
    0 <= i && i + p.len() <= s.len() && s.subrange(i, i + p.len()) == p
}

/// The first occurrence of `p` in `s` at or after `from`.
pub open spec fn find_from(s: Seq<u8>, p: Seq<u8>, from: int) -> Option<int>
    decreases s.len() + 1 - from,
{
    if from < 0 || from + p.len() > s.len() {
        None
    } else if occurs_at(s, p, from) {
        Some(from)
    } else {
        find_from(s, p, from + 1)
    }
}

pub proof fn lemma_find_from_bounds(s: Seq<u8>, p: Seq<u8>, from: int)
    ensures
        find_from(s, p, from) matches Some(i) ==> from <= i && i + p.len() <= s.len()
            && occurs_at(s, p, i),
    decreases s.len() + 1 - from,
{
    if !(from < 0 || from + p.len() > s.len()) && !occurs_at(s, p, from) {
        lemma_find_from_bounds(s, p, from + 1);
    }
}

/// Whether `p` occurs in `s` at `i`.
pub fn occurs_at_exec(s: &[u8], p: &[u8], i: usize) -> (r: bool)
    ensures
        r == occurs_at(s@, p@, i as int),
{
    if i > s.len() || p.len() > s.len() - i {
        return false;
    }
    let mut k: usize = 0;
    let slen = s.len();
    while k < p.len()
        invariant
            slen == s@.len(),
            i + p@.len() <= s@.len(),
            k <= p@.len(),
            forall|m: int| 0 <= m < k ==> s@[i + m] == p@[m],
        decreases p@.len() - k,
    {
        assert(i + k < s@.len());
        if s[i + k] != p[k] {
            assert(s@.subrange(i as int, i + p@.len())[k as int] != p@[k as int]);
            return false;
        }
        k = k + 1;
    }
    assert(s@.subrange(i as int, i + p@.len()) =~= p@);
    true
}

/// The first occurrence of `p` in `s` at or after `from`.
pub fn find_exec(s: &[u8], p: &[u8], from: usize) -> (r: Option<usize>)
    ensures
        match find_from(s@, p@, from as int) {
            Some(i) => r == Some(i as usize) && from <= i && i + p@.len() <= s@.len(),
            None => r is None,
        },
{
    let slen = s.len();
    proof {
        lemma_find_from_bounds(s@, p@, from as int);
    }
    let mut i = from;
    loop
        invariant
            from <= i,
            find_from(s@, p@, i as int) == find_from(s@, p@, from as int),
        decreases s@.len() + 1 - i,
    {
        if i > s.len() || p.len() > s.len() - i {
            return None;
        }
        if occurs_at_exec(s, p, i) {
            return Some(i);
        }
        if i == s.len() {
            assert(find_from(s@, p@, i + 1) is None);
            return None;
        }
        i = i + 1;
    }
}

/// The first position of byte `b` in `s`.
pub open spec fn index_of_byte(s: Seq<u8>, b: u8) -> Option<int> {
    find_from(s, seq![b], 0)
}

/// The lines of `s`: pieces ending at `\n` (the `\n` dropped, and a `\r`
/// before it too), and a final piece with no `\n` when it is not empty.
pub open spec fn lines_of(s: Seq<u8>) -> Seq<Seq<u8>>
    decreases s.len(),
{
    proof {
        lemma_find_from_bounds(s, seq![10u8], 0);
    }
    match index_of_byte(s, 10) {
        None => if s.len() == 0 {
            Seq::empty()
        } else {
            seq![s]
        },
        Some(n) => {
            let raw = s.subrange(0, n);
            let line = if n > 0 && raw[n - 1] == 13 {
                raw.subrange(0, n - 1)
            } else {
                raw
            };
            seq![line] + lines_of(s.subrange(n + 1, s.len() as int))
        },
    }
}

/// There are never more lines than bytes.
pub proof fn lemma_lines_len(s: Seq<u8>)
    ensures
        lines_of(s).len() <= s.len(),
    decreases s.len(),
{
    lemma_find_from_bounds(s, seq![10u8], 0);
    if let Some(n) = index_of_byte(s, 10) {
        lemma_lines_len(s.subrange(n + 1, s.len() as int));
    }
}

/// `p` occurs somewhere in `s`.
pub open spec fn occurs_in(s: Seq<u8>, p: Seq<u8>) -> bool {
    exists|i: int| #[trigger] occurs_at(s, p, i)
}

/// A one-byte pattern occurs exactly where that byte stands.
pub proof fn lemma_occurs_byte(s: Seq<u8>, b: u8, i: int)
    ensures
        occurs_at(s, seq![b], i) <==> (0 <= i < s.len() && s[i] == b),
{
    if 0 <= i < s.len() {
        assert(s.subrange(i, i + 1) =~= seq![s[i]]);
        if s[i] != b {
            assert(s.subrange(i, i + 1)[0] != seq![b][0]);
        }
    }
}

/// `find_from` finds an occurrence no later than any occurrence at or after
/// `from`.
pub proof fn lemma_find_from_first(s: Seq<u8>, p: Seq<u8>, from: int, i: int)
    requires
        0 <= from <= i,
        occurs_at(s, p, i),
    ensures
        find_from(s, p, from) matches Some(k) && k <= i,
    decreases i - from,
{
    if !occurs_at(s, p, from) {
        lemma_find_from_first(s, p, from + 1, i);
    }
}

/// An occurrence with none before it, from `from` on, is what `find_from`
/// finds.
pub proof fn lemma_find_from_at(s: Seq<u8>, p: Seq<u8>, from: int, k: int)
    requires
        0 <= from <= k,
        occurs_at(s, p, k),
        forall|i: int| from <= i < k ==> !#[trigger] occurs_at(s, p, i),
    ensures
        find_from(s, p, from) == Some(k),
{
    lemma_find_from_first(s, p, from, k);
    lemma_find_from_bounds(s, p, from);
}

/// A byte that is not in `s`.
pub open spec fn lacks_byte(s: Seq<u8>, b: u8) -> bool {
    forall|i: int| 0 <= i < s.len() ==> #[trigger] s[i] != b
}

/// A line that a carriage return ends.
pub open spec fn ends_in_cr(s: Seq<u8>) -> bool {
    s.len() > 0 && s.last() == 13
}

/// Every line of `s` is a piece of `s`, with no `\n` in it.
pub proof fn lemma_lines_are_pieces(s: Seq<u8>)
    ensures
        forall|k: int|
            0 <= k < lines_of(s).len() ==> lacks_byte(#[trigger] lines_of(s)[k], 10) && occurs_in(
                s,
                lines_of(s)[k],
            ),
    decreases s.len(),
{
    lemma_find_from_bounds(s, seq![10u8], 0);
    match index_of_byte(s, 10) {
        None => {
            assert forall|i: int| 0 <= i < s.len() implies s[i] != 10 by {
                if s[i] == 10 {
                    lemma_occurs_byte(s, 10, i);
                    lemma_find_from_first(s, seq![10u8], 0, i);
                }
            }
            if s.len() > 0 {
                assert(s.subrange(0, s.len() as int) =~= s);
                assert(occurs_at(s, s, 0));
            }
        },
        Some(n) => {
            let rest = s.subrange(n + 1, s.len() as int);
            lemma_lines_are_pieces(rest);
            let raw = s.subrange(0, n);
            assert forall|i: int| 0 <= i < n implies s[i] != 10 by {
                if s[i] == 10 {
                    lemma_occurs_byte(s, 10, i);
                    lemma_find_from_first(s, seq![10u8], 0, i);
                }
            }
            let line = if n > 0 && raw[n - 1] == 13 {
                raw.subrange(0, n - 1)
            } else {
                raw
            };
            assert(s.subrange(0, line.len() as int) =~= line);
            assert(occurs_at(s, line, 0));
            let lines = lines_of(s);
            assert(lines == seq![line] + lines_of(rest));
            assert forall|k: int| 0 <= k < lines.len() implies lacks_byte(
                #[trigger] lines[k],
                10,
            ) && occurs_in(s, lines[k]) by {
                if k > 0 {
                    let x = lines_of(rest)[k - 1];
                    assert(lines[k] == x);
                    let j = choose|j: int| occurs_at(rest, x, j);
                    assert(s.subrange(n + 1 + j, n + 1 + j + x.len()) =~= rest.subrange(
                        j,
                        j + x.len(),
                    ));
                    assert(occurs_at(s, x, n + 1 + j));
                }
            }
        },
    }
}

/// The lines of a line with no `\n`, followed by `\n` and more text.
pub proof fn lemma_lines_of_line_then(x: Seq<u8>, rest: Seq<u8>)
    requires
        lacks_byte(x, 10),
        !ends_in_cr(x),
    ensures
        lines_of(x + seq![10u8] + rest) == seq![x] + lines_of(rest),
{
    let s = x + seq![10u8] + rest;
    let n = x.len() as int;
    lemma_occurs_byte(s, 10, n);
    assert forall|i: int| 0 <= i < n implies !#[trigger] occurs_at(s, seq![10u8], i) by {
        lemma_occurs_byte(s, 10, i);
    }
    lemma_find_from_at(s, seq![10u8], 0, n);
    assert(s.subrange(0, n) =~= x);
    assert(s.subrange(n + 1, s.len() as int) =~= rest);
}

/// The lines of a text with no `\n`: itself, unless it is empty.
pub proof fn lemma_lines_of_single(x: Seq<u8>)
    requires
        lacks_byte(x, 10),
    ensures
        lines_of(x) == (if x.len() == 0 {
            Seq::<Seq<u8>>::empty()
        } else {
            seq![x]
        }),
{
    lemma_find_from_bounds(x, seq![10u8], 0);
    if let Some(k) = index_of_byte(x, 10) {
        lemma_occurs_byte(x, 10, k);
    }
}

/// The lines of `s`.
pub fn lines_exec(s: &[u8]) -> (r: Vec<Vec<u8>>)
    ensures
        r@.len() == lines_of(s@).len(),
        forall|i: int| 0 <= i < r@.len() ==> (#[trigger] r@[i])@ == lines_of(s@)[i],
{
    let mut out: Vec<Vec<u8>> = Vec::new();
    let mut start: usize = 0;
    let nl: [u8; 1] = [10];
    let ghost pre: Seq<Seq<u8>> = Seq::empty();
    assert(s@.subrange(0, s@.len() as int) =~= s@);
    assert(pre + lines_of(s@) =~= lines_of(s@));
    loop
        invariant
            start <= s@.len(),
            nl@ == seq![10u8],
            out@.len() == pre.len(),
            forall|i: int| 0 <= i < out@.len() ==> (#[trigger] out@[i])@ == pre[i],
            pre + lines_of(s@.subrange(start as int, s@.len() as int)) == lines_of(s@),
        decreases s@.len() - start,
    {
        let ghost rest = s@.subrange(start as int, s@.len() as int);
        let tail = crate::bytes::slice_to_vec(s, start, s.len());
        proof {
            lemma_find_from_bounds(rest, seq![10u8], 0);
        }
        match find_exec(tail.as_slice(), nl.as_slice(), 0) {
            None => {
                if tail.len() > 0 {
                    proof {
                        assert(lines_of(rest) == seq![rest]);
                        pre = pre.push(rest);
                    }
                    out.push(tail);
                } else {
                    assert(lines_of(rest) =~= Seq::<Seq<u8>>::empty());
                }
                proof {
                    assert(pre + Seq::<Seq<u8>>::empty() =~= pre);
                }
                assert forall|i: int| 0 <= i < out@.len() implies (#[trigger] out@[i])@
                    == lines_of(s@)[i] by {
                    assert(pre =~= lines_of(s@));
                }
                return out;
            },
            Some(n) => {
                let cut = if n > 0 && tail[n - 1] == 13 {
                    n - 1
                } else {
                    n
                };
                let line = crate::bytes::prefix(tail.as_slice(), cut);
                proof {
                    let raw = rest.subrange(0, n as int);
                    assert(line@ =~= (if n > 0 && raw[n - 1] == 13 {
                        raw.subrange(0, n - 1)
                    } else {
                        raw
                    }));
                    assert(rest.subrange(n + 1, rest.len() as int) =~= s@.subrange(
                        start + n + 1,
                        s@.len() as int,
                    ));
                    let old_pre = pre;
                    pre = pre.push(line@);
                    assert(old_pre + lines_of(rest) =~= pre + lines_of(
                        s@.subrange(start + n + 1, s@.len() as int),
                    ));
                }
                out.push(line);
                start = start + n + 1;
            },
        }
    }
}

/// The pieces of `s` between occurrences of `b` (always at least one).
pub open spec fn split_on(s: Seq<u8>, b: u8) -> Seq<Seq<u8>>
    decreases s.len(),
{
    proof {
        lemma_find_from_bounds(s, seq![b], 0);
    }
    match index_of_byte(s, b) {
        None => seq![s],
        Some(k) => seq![s.subrange(0, k)] + split_on(s.subrange(k + 1, s.len() as int), b),
    }
}

/// The position of the first `b` in `s`.
pub fn index_of_byte_exec(s: &[u8], b: u8) -> (r: Option<usize>)
    ensures
        match index_of_byte(s@, b) {
            Some(i) => r == Some(i as usize) && 0 <= i < s@.len(),
            None => r is None,
        },
{
    let p: [u8; 1] = [b];
    assert(p@ == seq![b]);
    find_exec(s, p.as_slice(), 0)
}

/// The pieces of `s` between occurrences of `b`.
pub fn split_on_exec(s: &[u8], b: u8) -> (r: Vec<Vec<u8>>)
    ensures
        r@.len() == split_on(s@, b).len(),
        forall|i: int| 0 <= i < r@.len() ==> (#[trigger] r@[i])@ == split_on(s@, b)[i],
{
    let mut out: Vec<Vec<u8>> = Vec::new();
    let mut rest = crate::bytes::slice_to_vec(s, 0, s.len());
    let ghost pre: Seq<Seq<u8>> = Seq::empty();
    assert(rest@ =~= s@);
    assert(pre + split_on(rest@, b) =~= split_on(s@, b));
    loop
        invariant
            out@.len() == pre.len(),
            forall|i: int| 0 <= i < out@.len() ==> (#[trigger] out@[i])@ == pre[i],
            pre + split_on(rest@, b) == split_on(s@, b),
        decreases rest@.len(),
    {
        let rlen = rest.len();
        match index_of_byte_exec(rest.as_slice(), b) {
            None => {
                proof {
                    pre = pre.push(rest@);
                }
                out.push(rest);
                return out;
            },
            Some(k) => {
                let piece = crate::bytes::prefix(rest.as_slice(), k);
                let next = crate::bytes::slice_to_vec(rest.as_slice(), k + 1, rest.len());
                proof {
                    let old_pre = pre;
                    pre = pre.push(piece@);
                    assert(old_pre + split_on(rest@, b) =~= pre + split_on(next@, b));
                }
                out.push(piece);
                rest = next;
            },
        }
    }
}

/// The end of the token that starts at `i`: the next whitespace character
/// or the end of `s`.
pub open spec fn token_end(s: Seq<u8>, i: int) -> int
    decreases s.len() - i,
{
    if i < 0 || i >= s.len() || ws_len_at(s, i) > 0 {
        i
    } else {
        token_end(s, i + 1)
    }
}

pub proof fn lemma_token_end_bounds(s: Seq<u8>, i: int)
    requires
        0 <= i <= s.len(),
    ensures
        i <= token_end(s, i) <= s.len(),
        i < s.len() && ws_len_at(s, i) == 0 ==> token_end(s, i) > i,
    decreases s.len() - i,
{
    if i < s.len() && ws_len_at(s, i) == 0 {
        lemma_token_end_bounds(s, i + 1);
    }
}

/// The whitespace-separated tokens of `s`, in order.
pub open spec fn ws_tokens(s: Seq<u8>) -> Seq<Seq<u8>>
    decreases s.len(),
{
    let a = skip_ws(s, 0);
    if a >= s.len() {
        Seq::empty()
    } else {
        proof {
            lemma_skip_ws_bounds(s, 0);
            lemma_token_end_bounds(s, a);
        }
        let e = token_end(s, a);
        seq![s.subrange(a, e)] + ws_tokens(s.subrange(e, s.len() as int))
    }
}

fn token_end_exec(s: &[u8], i: usize) -> (r: usize)
    requires
        i <= s@.len(),
    ensures
        r == token_end(s@, i as int),
        i <= r <= s@.len(),
{
    proof {
        lemma_token_end_bounds(s@, i as int);
    }
    let mut k = i;
    while k < s.len() && ws_len_at_exec(s, k) == 0
        invariant
            i <= k <= s@.len(),
            token_end(s@, k as int) == token_end(s@, i as int),
        decreases s@.len() - k,
    {
        k = k + 1;
    }
    k
}

/// The whitespace-separated tokens of `s`.
pub fn ws_tokens_exec(s: &[u8]) -> (r: Vec<Vec<u8>>)
    ensures
        r@.len() == ws_tokens(s@).len(),
        forall|i: int| 0 <= i < r@.len() ==> (#[trigger] r@[i])@ == ws_tokens(s@)[i],
{
    let mut out: Vec<Vec<u8>> = Vec::new();
    let mut rest = crate::bytes::slice_to_vec(s, 0, s.len());
    let ghost pre: Seq<Seq<u8>> = Seq::empty();
    assert(rest@ =~= s@);
    assert(pre + ws_tokens(rest@) =~= ws_tokens(s@));
    loop
        invariant
            out@.len() == pre.len(),
            forall|i: int| 0 <= i < out@.len() ==> (#[trigger] out@[i])@ == pre[i],
            pre + ws_tokens(rest@) == ws_tokens(s@),
        decreases rest@.len(),
    {
        let a = skip_ws_exec(rest.as_slice(), 0);
        if a >= rest.len() {
            assert(ws_tokens(rest@) =~= Seq::<Seq<u8>>::empty());
            assert(pre + Seq::<Seq<u8>>::empty() =~= pre);
            return out;
        }
        proof {
            lemma_skip_ws_bounds(rest@, 0);
            lemma_token_end_bounds(rest@, a as int);
        }
        let e = token_end_exec(rest.as_slice(), a);
        let tok = crate::bytes::slice_to_vec(rest.as_slice(), a, e);
        let next = crate::bytes::slice_to_vec(rest.as_slice(), e, rest.len());
        proof {
            let old_pre = pre;
            pre = pre.push(tok@);
            assert(old_pre + ws_tokens(rest@) =~= pre + ws_tokens(next@));
        }
        out.push(tok);
        rest = next;
    }
}

/// `s` with each ASCII uppercase letter lowered.
pub open spec fn ascii_lower(s: Seq<u8>) -> Seq<u8> {
    s.map_values(|b: u8| if 65 <= b <= 90 { (b + 32) as u8 } else { b })
}

pub fn ascii_lower_exec(s: &[u8]) -> (r: Vec<u8>)
    ensures
        r@ == ascii_lower(s@),
{
    let mut out: Vec<u8> = Vec::new();
    let mut i: usize = 0;
    while i < s.len()
        invariant
            i <= s@.len(),
            out@ == ascii_lower(s@.subrange(0, i as int)),
        decreases s@.len() - i,
    {
        let b = s[i];
        out.push(if 65 <= b && b <= 90 { b + 32 } else { b });
        i = i + 1;
        assert(out@ =~= ascii_lower(s@.subrange(0, i as int)));
    }
    assert(s@.subrange(0, s@.len() as int) =~= s@);
    out
}

pub open spec fn is_digit(b: u8) -> bool {
    48 <= b <= 57
}

pub open spec fn is_lower(b: u8) -> bool {
    97 <= b <= 122
}

pub open spec fn is_alpha(b: u8) -> bool {
    (65 <= b <= 90) || (97 <= b <= 122)
}

pub open spec fn is_hex(b: u8) -> bool {
    is_digit(b) || (97 <= b <= 102) || (65 <= b <= 70)
}

} // verus!
