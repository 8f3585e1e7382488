//! The `tasks/` tree's text formats: task ids, commit hashes, `todo.md`'s
//! generated region and its list entries, prose task references, and the
//! `## Status:` line.
//!
//! All text is UTF-8 bytes.

use vstd::prelude::*;
use vstd::string::StringSliceAdditionalSpecFns;
use crate::bytes::{bytes_eq, lit, prefix, slice_to_vec};
use crate::text::{
    ascii_lower, ascii_lower_exec, find_exec, find_from, index_of_byte, index_of_byte_exec,
    is_alpha, is_digit, is_hex, is_lower, lemma_find_from_bounds, lines_exec, lines_of, occurs_at,
    occurs_at_exec, split_on, split_on_exec, trim, trim_exec, trim_start, trim_start_exec,
    ws_tokens, ws_tokens_exec,
};

verus! {

/// `todo.md`'s generated region opens with this marker.
pub open spec fn begin_marker() -> Seq<u8> {
    "<!-- xtask:tasks begin -->".spec_bytes()
}

/// `todo.md`'s generated region closes with this marker.
pub open spec fn end_marker() -> Seq<u8> {
    "<!-- xtask:tasks end -->".spec_bytes()
}

pub fn begin_marker_bytes() -> (r: Vec<u8>)
    ensures
        r@ == begin_marker(),
{
    lit("<!-- xtask:tasks begin -->")
}

pub fn end_marker_bytes() -> (r: Vec<u8>)
    ensures
        r@ == end_marker(),
{
    lit("<!-- xtask:tasks end -->")
}

/// The markers' shapes: only the first byte of the begin marker is `<`,
/// and the end marker starts with one.
pub proof fn lemma_marker_facts()
    ensures
        begin_marker().len() == 26,
        end_marker().len() == 24,
        end_marker()[0] == 60u8,
        forall|k: int| 1 <= k < 26 ==> begin_marker()[k] != 60u8,
{
    reveal_strlit("<!-- xtask:tasks begin -->");
    reveal_strlit("<!-- xtask:tasks end -->");
    vstd::string::is_ascii_spec_bytes("<!-- xtask:tasks begin -->");
    vstd::string::is_ascii_spec_bytes("<!-- xtask:tasks end -->");
    assert(begin_marker() =~= seq![
        60u8, 33, 45, 45, 32, 120, 116, 97, 115, 107, 58, 116, 97, 115, 107, 115, 32, 98, 101,
        103, 105, 110, 32, 45, 45, 62,
    ]);
    assert(end_marker()[0] == 60u8);
}

/// The digits part of a task id: all of it, or all but a trailing
/// lowercase letter.
pub open spec fn id_digits_len(s: Seq<u8>) -> int {
    if s.len() > 1 && is_lower(s.last()) {
        s.len() - 1
    } else {
        s.len() as int
    }
}

/// A task id: one or more digits, optionally one lowercase letter as a
/// trailing suffix (task 74b), never mid-run (`12a3` is not an id).
pub open spec fn task_id_shape(s: Seq<u8>) -> bool {
    &&& s.len() > 0
    &&& is_digit(s[0])
    &&& forall|i: int| 0 <= i < id_digits_len(s) ==> #[trigger] is_digit(s[i])
}

/// A git hash: 7 to 40 hex characters.
pub open spec fn commit_hash_shape(s: Seq<u8>) -> bool {
    7 <= s.len() <= 40 && forall|i: int| 0 <= i < s.len() ==> #[trigger] is_hex(s[i])
}

/// A positive decimal: one or more digits.
pub open spec fn decimal_shape(s: Seq<u8>) -> bool {
    s.len() > 0 && forall|i: int| 0 <= i < s.len() ==> #[trigger] is_digit(s[i])
}

fn all_digits(s: &[u8], n: usize) -> (r: bool)
    requires
        n <= s@.len(),
    ensures
        r == forall|i: int| 0 <= i < n ==> #[trigger] is_digit(s@[i]),
{
    let mut i: usize = 0;
    while i < n
        invariant
            i <= n <= s@.len(),
            forall|j: int| 0 <= j < i ==> #[trigger] is_digit(s@[j]),
        decreases n - i,
    {
        if !(48 <= s[i] && s[i] <= 57) {
            assert(!is_digit(s@[i as int]));
            return false;
        }
        i = i + 1;
    }
    true
}

/// A task id: one or more digits, optionally one letter as a trailing
/// suffix (task 74b).
pub fn is_task_id(s: &[u8]) -> (r: bool)
    ensures
        r == task_id_shape(s@),
{
    if s.len() == 0 || !(48 <= s[0] && s[0] <= 57) {
        return false;
    }
    let last = s[s.len() - 1];
    let n = if s.len() > 1 && 97 <= last && last <= 122 {
        s.len() - 1
    } else {
        s.len()
    };
    all_digits(s, n)
}

/// A git hash: 7 to 40 hex characters.
pub fn is_commit_hash(s: &[u8]) -> (r: bool)
    ensures
        r == commit_hash_shape(s@),
{
    if s.len() < 7 || s.len() > 40 {
        return false;
    }
    let mut i: usize = 0;
    while i < s.len()
        invariant
            i <= s@.len(),
            forall|j: int| 0 <= j < i ==> #[trigger] is_hex(s@[j]),
        decreases s@.len() - i,
    {
        let b = s[i];
        if !((48 <= b && b <= 57) || (97 <= b && b <= 102) || (65 <= b && b <= 70)) {
            assert(!is_hex(s@[i as int]));
            return false;
        }
        i = i + 1;
    }
    true
}

/// A positive decimal: wave numbers and issue numbers.
pub fn is_decimal(s: &[u8]) -> (r: bool)
    ensures
        r == decimal_shape(s@),
{
    s.len() > 0 && all_digits(s, s.len())
}

/// The generated region: the begin marker's start and the end marker's
/// start, when both are present and the end comes after the begin.
pub open spec fn spec_todo_region(text: Seq<u8>) -> Option<(int, int)> {
    match (find_from(text, begin_marker(), 0), find_from(text, end_marker(), 0)) {
        (Some(b), Some(e)) => if e > b {
            Some((b, e))
        } else {
            None
        },
        _ => None,
    }
}

/// The end marker cannot start inside the begin marker.
pub proof fn lemma_region_ordered(text: Seq<u8>)
    ensures
        spec_todo_region(text) matches Some((b, e)) ==> 0 <= b && b + begin_marker().len() <= e
            && e + end_marker().len() <= text.len(),
{
    lemma_find_from_bounds(text, begin_marker(), 0);
    lemma_find_from_bounds(text, end_marker(), 0);
    lemma_marker_facts();
    if let Some((b, e)) = spec_todo_region(text) {
        if e < b + 26 {
            assert(text.subrange(b, b + 26)[e - b] == begin_marker()[e - b]);
            assert(text.subrange(e, e + 24)[0] == end_marker()[0]);
        }
    }
}

/// `todo.md`'s generated region: the begin marker's start and the end
/// marker's start, when both are present in order.
pub fn todo_region(text: &[u8]) -> (r: Option<(usize, usize)>)
    ensures
        match spec_todo_region(text@) {
            Some((b, e)) => {
                &&& r == Some((b as usize, e as usize))
                &&& 0 <= b
                &&& b + begin_marker().len() <= e
                &&& e + end_marker().len() <= text@.len()
            },
            None => r is None,
        },
{
    proof {
        lemma_region_ordered(text@);
    }
    let tl = text.len();
    assert(text@.len() == tl);
    let bm = begin_marker_bytes();
    let em = end_marker_bytes();
    let fb = find_exec(text, bm.as_slice(), 0);
    let fe = find_exec(text, em.as_slice(), 0);
    match fb {
        Some(b) => match fe {
            Some(e) => {
                if e > b {
                    return Some((b, e));
                }
                None
            },
            None => None,
        },
        None => None,
    }
}

/// The position of the first `b` in `s`, if any.
pub open spec fn first_byte(s: Seq<u8>, b: u8) -> Option<int> {
    find_from(s, seq![b], 0)
}

fn first_byte_exec(s: &[u8], b: u8) -> (r: Option<usize>)
    ensures
        match first_byte(s@, b) {
            Some(i) => r == Some(i as usize) && 0 <= i < s@.len(),
            None => r is None,
        },
{
    let p: [u8; 1] = [b];
    assert(p@ == seq![b]);
    find_exec(s, p.as_slice(), 0)
}

/// `N. [file](file) ...` on an entry line; `None` otherwise.  The link
/// text and target must be identical.
pub open spec fn spec_entry_head(line: Seq<u8>) -> Option<(Seq<u8>, Seq<u8>)> {
    let t = trim_start(line);
    match find_from(t, ". [".spec_bytes(), 0) {
        None => None,
        Some(p) => {
            let number = t.subrange(0, p);
            let rest = t.subrange(p + 3, t.len() as int);
            if !task_id_shape(number) {
                None
            } else {
                match first_byte(rest, 93) {
                    None => None,
                    Some(q) => {
                        let file = rest.subrange(0, q);
                        let after = rest.subrange(q + 1, rest.len() as int);
                        if after.len() == 0 || after[0] != 40 {
                            None
                        } else {
                            let inner = after.subrange(1, after.len() as int);
                            let target = match first_byte(inner, 41) {
                                Some(k) => inner.subrange(0, k),
                                None => inner,
                            };
                            if file.len() == 0 || target != file {
                                None
                            } else {
                                Some((number, file))
                            }
                        }
                    },
                }
            }
        },
    }
}

/// `N. [file](file) ...` on an entry line; `None` otherwise.
pub fn parse_entry_head(line: &[u8]) -> (r: Option<(Vec<u8>, Vec<u8>)>)
    ensures
        match spec_entry_head(line@) {
            Some((n, f)) => r matches Some((rn, rf)) && rn@ == n && rf@ == f,
            None => r is None,
        },
{
    let t = trim_start_exec(line);
    let tlen = t.len();
    let sep = lit(". [");
    proof {
        lemma_find_from_bounds(t@, sep@, 0);
    }
    proof {
        reveal_strlit(". [");
        vstd::string::is_ascii_spec_bytes(". [");
        assert(sep@.len() == 3);
    }
    let found = find_exec(t.as_slice(), sep.as_slice(), 0);
    let p = match found {
        Some(p) => p,
        None => return None,
    };
    assert(found == Some(p));
    assert(p + sep@.len() <= t@.len());
    let number = prefix(t.as_slice(), p);
    let rest = slice_to_vec(t.as_slice(), p + 3, t.len());
    let ghost tt = trim_start(line@);
    assert(t@ == tt);
    assert(find_from(tt, ". [".spec_bytes(), 0) == Some(p as int));
    assert(number@ == tt.subrange(0, p as int));
    assert(rest@ == tt.subrange(p + 3, tt.len() as int));
    if !is_task_id(number.as_slice()) {
        return None;
    }
    let rlen = rest.len();
    let q = match first_byte_exec(rest.as_slice(), 93) {
        Some(q) => q,
        None => return None,
    };
    let file = prefix(rest.as_slice(), q);
    let after = slice_to_vec(rest.as_slice(), q + 1, rest.len());
    assert(after@ == rest@.subrange(q + 1, rest@.len() as int));
    if after.len() == 0 || after[0] != 40 {
        return None;
    }
    let inner = slice_to_vec(after.as_slice(), 1, after.len());
    let ghost want_target = match first_byte(inner@, 41) {
        Some(k) => inner@.subrange(0, k),
        None => inner@,
    };
    let target = match first_byte_exec(inner.as_slice(), 41) {
        Some(k) => prefix(inner.as_slice(), k),
        None => inner,
    };
    assert(target@ == want_target);
    if file.len() == 0 || !bytes_eq(target.as_slice(), file.as_slice()) {
        return None;
    }
    Some((number, file))
}

/// The number of `b` bytes in `s`.
pub open spec fn count_byte(s: Seq<u8>, b: u8) -> int
    decreases s.len(),
{
    if s.len() == 0 {
        0
    } else {
        count_byte(s.drop_last(), b) + if s.last() == b {
            1int
        } else {
            0int
        }
    }
}

proof fn lemma_count_byte_bound(s: Seq<u8>, b: u8)
    ensures
        0 <= count_byte(s, b) <= s.len(),
    decreases s.len(),
{
    if s.len() > 0 {
        lemma_count_byte_bound(s.drop_last(), b);
    }
}

fn count_byte_exec(s: &[u8], b: u8) -> (r: usize)
    ensures
        r == count_byte(s@, b),
{
    let mut n: usize = 0;
    let mut i: usize = 0;
    while i < s.len()
        invariant
            i <= s@.len(),
            n == count_byte(s@.subrange(0, i as int), b),
            n <= i,
        decreases s@.len() - i,
    {
        proof {
            assert(s@.subrange(0, i + 1).drop_last() =~= s@.subrange(0, i as int));
        }
        if s[i] == b {
            n = n + 1;
        }
        i = i + 1;
    }
    assert(s@.subrange(0, s@.len() as int) =~= s@);
    n
}

/// A `todo.md` list entry: the number, the linked file, and the 1-based
/// file line it sits on.
pub type ListEntry = (Vec<u8>, Vec<u8>, u32);

/// The entries of the lines `lines`, the first of which is file line
/// `first_line`.
pub open spec fn entries_of_lines(lines: Seq<Seq<u8>>, first_line: int) -> Seq<(Seq<u8>, Seq<u8>, u32)>
    decreases lines.len(),
{
    if lines.len() == 0 {
        Seq::empty()
    } else {
        let prev = entries_of_lines(lines.drop_last(), first_line);
        match spec_entry_head(lines.last()) {
            Some((n, f)) => prev.push((n, f, (first_line + lines.len() - 1) as u32)),
            None => prev,
        }
    }
}

/// `todo.md`'s list entries inside the generated region.
pub open spec fn spec_todo_list(text: Seq<u8>) -> Seq<(Seq<u8>, Seq<u8>, u32)> {
    match spec_todo_region(text) {
        None => Seq::empty(),
        Some((b, e)) => {
            let region_start = b + begin_marker().len();
            let first_line = count_byte(text.subrange(0, region_start), 10) + 1;
            entries_of_lines(lines_of(text.subrange(region_start, e)), first_line)
        },
    }
}

/// `todo.md`'s list entries inside the generated region:
/// `N. [file](file) ...`, each with its 1-based file line.  Lines outside
/// the markers are ignored.
pub fn parse_todo_list(text: &[u8]) -> (r: Vec<ListEntry>)
    ensures
        r@.len() == spec_todo_list(text@).len(),
        forall|i: int|
            0 <= i < r@.len() ==> {
                &&& (#[trigger] r@[i]).0@ == spec_todo_list(text@)[i].0
                &&& r@[i].1@ == spec_todo_list(text@)[i].1
                &&& r@[i].2 == spec_todo_list(text@)[i].2
            },
{
    let (begin, end) = match todo_region(text) {
        Some(be) => be,
        None => return Vec::new(),
    };
    proof {
        lemma_marker_facts();
    }
    let tl = text.len();
    let region_start = begin + 26;
    let head = prefix(text, region_start);
    let nl = count_byte_exec(head.as_slice(), 10);
    proof {
        lemma_count_byte_bound(head@, 10);
    }
    assert(nl <= region_start);
    assert(region_start < text@.len());
    let line_at_region_start = nl + 1;
    let region = slice_to_vec(text, region_start, end);
    let lines = lines_exec(region.as_slice());
    proof {
        crate::text::lemma_lines_len(region@);
    }
    let ghost ls = lines_of(region@);
    let ghost first = line_at_region_start as int;
    assert(spec_todo_region(text@) == Some((begin as int, end as int)));
    assert(region_start == begin + begin_marker().len());
    assert(head@ == text@.subrange(0, region_start as int));
    assert(first == count_byte(text@.subrange(0, region_start as int), 10) + 1);
    assert(region@ == text@.subrange(region_start as int, end as int));
    let mut out: Vec<ListEntry> = Vec::new();
    let mut i: usize = 0;
    while i < lines.len()
        invariant
            i <= lines@.len(),
            lines@.len() == ls.len(),
            forall|k: int| 0 <= k < lines@.len() ==> (#[trigger] lines@[k])@ == ls[k],
            line_at_region_start + lines@.len() <= text@.len(),
            tl == text@.len(),
            first == line_at_region_start,
            out@.len() == entries_of_lines(ls.subrange(0, i as int), first).len(),
            forall|k: int|
                0 <= k < out@.len() ==> {
                    &&& (#[trigger] out@[k]).0@ == entries_of_lines(ls.subrange(0, i as int), first)[k].0
                    &&& out@[k].1@ == entries_of_lines(ls.subrange(0, i as int), first)[k].1
                    &&& out@[k].2 == entries_of_lines(ls.subrange(0, i as int), first)[k].2
                },
        decreases lines@.len() - i,
    {
        let ghost before = entries_of_lines(ls.subrange(0, i as int), first);
        proof {
            assert(ls.subrange(0, i + 1).drop_last() =~= ls.subrange(0, i as int));
            assert(ls.subrange(0, i + 1).last() == ls[i as int]);
        }
        match parse_entry_head(lines[i].as_slice()) {
            Some((number, file)) => {
                let ln = (line_at_region_start + i) as u32;
                proof {
                    assert(ln == (first + (i + 1) - 1) as u32);
                }
                out.push((number, file, ln));
            },
            None => {},
        }
        i = i + 1;
    }
    assert(ls.subrange(0, ls.len() as int) =~= ls);
    assert(spec_todo_list(text@) == entries_of_lines(ls, first));
    out
}


/// A byte `trim_matches` strips around a Status-line token: `,`, `)`, `(`.
pub open spec fn is_punct(b: u8) -> bool {
    b == 44 || b == 41 || b == 40
}

/// The first position at or after `i` that is not such punctuation.
pub open spec fn punct_skip(s: Seq<u8>, i: int) -> int
    decreases s.len() - i,
{
    if 0 <= i < s.len() && is_punct(s[i]) {
        punct_skip(s, i + 1)
    } else {
        i
    }
}

/// The end of `s[lo..j]` with trailing punctuation stripped.
pub open spec fn punct_back(s: Seq<u8>, lo: int, j: int) -> int
    decreases j - lo,
{
    if lo < j && j <= s.len() && is_punct(s[j - 1]) {
        punct_back(s, lo, j - 1)
    } else {
        j
    }
}

/// `s` with `,`, `(` and `)` stripped from both ends.
pub open spec fn strip_punct(s: Seq<u8>) -> Seq<u8> {
    let lo = punct_skip(s, 0);
    if lo >= s.len() {
        Seq::empty()
    } else {
        s.subrange(lo, punct_back(s, lo, s.len() as int))
    }
}

proof fn lemma_punct_bounds(s: Seq<u8>, i: int, lo: int, j: int)
    requires
        0 <= i <= s.len(),
        0 <= lo <= j <= s.len(),
    ensures
        i <= punct_skip(s, i) <= s.len(),
        lo <= punct_back(s, lo, j) <= j,
    decreases s.len() - i + j - lo,
{
    if 0 <= i < s.len() && is_punct(s[i]) {
        lemma_punct_bounds(s, i + 1, lo, j);
    } else if lo < j && j <= s.len() && is_punct(s[j - 1]) {
        lemma_punct_bounds(s, i, lo, j - 1);
    }
}

fn strip_punct_exec(s: &[u8]) -> (r: Vec<u8>)
    ensures
        r@ == strip_punct(s@),
{
    let n = s.len();
    let mut lo: usize = 0;
    while lo < n && (s[lo] == 44 || s[lo] == 41 || s[lo] == 40)
        invariant
            n == s@.len(),
            lo <= n,
            punct_skip(s@, lo as int) == punct_skip(s@, 0),
        decreases n - lo,
    {
        lo = lo + 1;
    }
    if lo >= n {
        return Vec::new();
    }
    let mut hi: usize = n;
    while lo < hi && (s[hi - 1] == 44 || s[hi - 1] == 41 || s[hi - 1] == 40)
        invariant
            n == s@.len(),
            lo <= hi <= n,
            lo == punct_skip(s@, 0),
            punct_back(s@, lo as int, hi as int) == punct_back(s@, lo as int, n as int),
        decreases hi,
    {
        hi = hi - 1;
    }
    slice_to_vec(s, lo, hi)
}

/// The first token whose stripped form is a commit hash, stripped.
pub open spec fn first_hash_token(toks: Seq<Seq<u8>>) -> Option<Seq<u8>>
    decreases toks.len(),
{
    if toks.len() == 0 {
        None
    } else if commit_hash_shape(strip_punct(toks[0])) {
        Some(strip_punct(toks[0]))
    } else {
        first_hash_token(toks.drop_first())
    }
}

/// The text inside the first parenthesised group of `rest`: after its first
/// `(`, up to the next `(` or `)`.
pub open spec fn first_parens(rest: Seq<u8>) -> Option<Seq<u8>> {
    match index_of_byte(rest, 40) {
        None => None,
        Some(k) => {
            let after = rest.subrange(k + 1, rest.len() as int);
            let piece = match index_of_byte(after, 40) {
                Some(j) => after.subrange(0, j),
                None => after,
            };
            Some(
                match index_of_byte(piece, 41) {
                    Some(j) => piece.subrange(0, j),
                    None => piece,
                },
            )
        },
    }
}

/// The first hash inside the first parenthesised group of a
/// `## Status: ...` line, if any.
pub open spec fn spec_recover_commit(line: Seq<u8>) -> Option<Seq<u8>> {
    let pfx = "## Status:".spec_bytes();
    if !(pfx.len() <= line.len() && line.subrange(0, pfx.len() as int) == pfx) {
        None
    } else {
        match first_parens(line.subrange(pfx.len() as int, line.len() as int)) {
            None => None,
            Some(p) => first_hash_token(ws_tokens(p)),
        }
    }
}

/// `s` starts with `p`: the bytes after it, copied.
fn strip_prefix_exec(s: &[u8], p: &[u8]) -> (r: Option<Vec<u8>>)
    ensures
        if p@.len() <= s@.len() && s@.subrange(0, p@.len() as int) == p@ {
            r matches Some(v) && v@ == s@.subrange(p@.len() as int, s@.len() as int)
        } else {
            r is None
        },
{
    if occurs_at_exec(s, p, 0) {
        Some(slice_to_vec(s, p.len(), s.len()))
    } else {
        None
    }
}

/// The first hash inside the first parenthesised group of a
/// `## Status: done (...)` line, if any.
pub fn recover_commit_from_status_line(status_line: &Option<Vec<u8>>) -> (r: Option<Vec<u8>>)
    ensures
        match status_line {
            None => r is None,
            Some(line) => match spec_recover_commit(line@) {
                Some(h) => r matches Some(v) && v@ == h,
                None => r is None,
            },
        },
{
    let line = match status_line {
        Some(l) => l,
        None => return None,
    };
    let pfx = lit("## Status:");
    let rest = match strip_prefix_exec(line.as_slice(), pfx.as_slice()) {
        Some(r) => r,
        None => return None,
    };
    let rlen = rest.len();
    let k = match index_of_byte_exec(rest.as_slice(), 40) {
        Some(k) => k,
        None => return None,
    };
    let after = slice_to_vec(rest.as_slice(), k + 1, rest.len());
    let piece = match index_of_byte_exec(after.as_slice(), 40) {
        Some(j) => prefix(after.as_slice(), j),
        None => after,
    };
    let parens = match index_of_byte_exec(piece.as_slice(), 41) {
        Some(j) => prefix(piece.as_slice(), j),
        None => piece,
    };
    assert(first_parens(rest@) == Some(parens@));
    assert(spec_recover_commit(line@) == first_hash_token(ws_tokens(parens@)));
    let toks = ws_tokens_exec(parens.as_slice());
    let ghost all = ws_tokens(parens@);
    let mut i: usize = 0;
    assert(all.subrange(0, all.len() as int) =~= all);
    while i < toks.len()
        invariant
            i <= toks@.len(),
            toks@.len() == all.len(),
            forall|m: int| 0 <= m < toks@.len() ==> (#[trigger] toks@[m])@ == all[m],
            first_hash_token(all) == first_hash_token(all.subrange(i as int, all.len() as int)),
            spec_recover_commit(line@) == first_hash_token(all),
            status_line matches Some(l) && l@ == line@,
        decreases toks@.len() - i,
    {
        let t = strip_punct_exec(toks[i].as_slice());
        proof {
            let tail = all.subrange(i as int, all.len() as int);
            assert(tail[0] == all[i as int]);
            assert(tail.drop_first() =~= all.subrange(i + 1, all.len() as int));
        }
        if is_commit_hash(t.as_slice()) {
            proof {
                let tail = all.subrange(i as int, all.len() as int);
                assert(first_hash_token(tail) == Some(t@));
            }
            return Some(t);
        }
        i = i + 1;
    }
    assert(all.subrange(i as int, all.len() as int) =~= Seq::<Seq<u8>>::empty());
    None
}

} // verus!
