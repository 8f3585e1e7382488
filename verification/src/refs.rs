//! Task references in prose: `task 119`, `Task 88`, `task-88`, `tasks 106`
//! and `Depends on 118, 121`.  Ordinals such as `Task 4 of 7` (a position
//! in a plan, not a task) are skipped.

use vstd::prelude::*;
use vstd::string::StringSliceAdditionalSpecFns;
use crate::bytes::{lit, slice_to_vec};
use crate::tasks::{is_task_id, task_id_shape};
use crate::text::{
    ascii_lower, ascii_lower_exec, find_exec, find_from, is_alpha, is_digit, is_lower,
    lemma_find_from_bounds, lines_exec, lines_of, occurs_at, occurs_at_exec, split_on,
    split_on_exec, trim, trim_exec, trim_start, trim_start_exec,
};

verus! {

pub open spec fn task_word() -> Seq<u8> {
    "task".spec_bytes()
}

pub open spec fn tasks_word() -> Seq<u8> {
    "tasks".spec_bytes()
}

pub open spec fn of_word() -> Seq<u8> {
    "of ".spec_bytes()
}

pub open spec fn depends_word() -> Seq<u8> {
    "depends on".spec_bytes()
}

/// The bytes of the words the scanner looks for.
pub proof fn lemma_words()
    ensures
        task_word() == seq![116u8, 97, 115, 107],
        tasks_word() == seq![116u8, 97, 115, 107, 115],
        of_word() == seq![111u8, 102, 32],
        depends_word() == seq![100u8, 101, 112, 101, 110, 100, 115, 32, 111, 110],
{
    reveal_strlit("task");
    reveal_strlit("tasks");
    reveal_strlit("of ");
    reveal_strlit("depends on");
    vstd::string::is_ascii_spec_bytes("task");
    vstd::string::is_ascii_spec_bytes("tasks");
    vstd::string::is_ascii_spec_bytes("of ");
    vstd::string::is_ascii_spec_bytes("depends on");
    assert(task_word() =~= seq![116u8, 97, 115, 107]);
    assert(tasks_word() =~= seq![116u8, 97, 115, 107, 115]);
    assert(of_word() =~= seq![111u8, 102, 32]);
    assert(depends_word() =~= seq![100u8, 101, 112, 101, 110, 100, 115, 32, 111, 110]);
}

/// The views of a list of byte strings.
pub open spec fn seqs_view(v: Seq<Vec<u8>>) -> Seq<Seq<u8>> {
    v.map_values(|x: Vec<u8>| x@)
}

/// The views of a list of numbered byte strings.
pub open spec fn refs_view(v: Seq<(u32, Vec<u8>)>) -> Seq<(u32, Seq<u8>)> {
    v.map_values(|p: (u32, Vec<u8>)| (p.0, p.1@))
}

pub proof fn lemma_seqs_view_push(v: Seq<Vec<u8>>, x: Vec<u8>)
    ensures
        seqs_view(v.push(x)) == seqs_view(v).push(x@),
{
    assert(seqs_view(v.push(x)) =~= seqs_view(v).push(x@));
}

pub proof fn lemma_refs_view_push(v: Seq<(u32, Vec<u8>)>, x: (u32, Vec<u8>))
    ensures
        refs_view(v.push(x)) == refs_view(v).push((x.0, x.1@)),
{
    assert(refs_view(v.push(x)) =~= refs_view(v).push((x.0, x.1@)));
}

/// The number of ASCII digits in `s` from `i` on, up to the first other byte.
pub open spec fn digit_run(s: Seq<u8>, i: int) -> int
    decreases s.len() - i,
{
    if 0 <= i < s.len() && is_digit(s[i]) {
        1 + digit_run(s, i + 1)
    } else {
        0
    }
}

pub proof fn lemma_digit_run(s: Seq<u8>, i: int)
    requires
        0 <= i <= s.len(),
    ensures
        0 <= digit_run(s, i) <= s.len() - i,
    decreases s.len() - i,
{
    if 0 <= i < s.len() && is_digit(s[i]) {
        lemma_digit_run(s, i + 1);
    }
}

/// `Task 4 of 7`: after the id, optional whitespace, `of ` in any case and
/// a digit.
pub open spec fn is_ordinal(line: Seq<u8>, id_end: int) -> bool {
    let m = ascii_lower(trim_start(line.subrange(id_end, line.len() as int)));
    occurs_at(m, of_word(), 0) && m.len() > 3 && is_digit(m[3])
}

/// The ids named by `task N` phrasings in `line`, scanning from `pos`.
pub open spec fn task_refs_from(line: Seq<u8>, pos: int) -> Seq<Seq<u8>>
    decreases line.len() - pos,
{
    let lower = ascii_lower(line);
    proof {
        lemma_words();
        lemma_find_from_bounds(lower, task_word(), pos);
    }
    match find_from(lower, task_word(), pos) {
        None => Seq::empty(),
        Some(start) => {
            if start > 0 && is_alpha(line[start - 1]) {
                task_refs_from(line, start + 1)
            } else {
                let after = start + 4 + if occurs_at(lower, tasks_word(), start) {
                    1int
                } else {
                    0int
                };
                if after >= line.len() {
                    Seq::empty()
                } else if line[after] != 32 && line[after] != 45 {
                    task_refs_from(line, start + 1)
                } else {
                    let num_start = after + 1;
                    proof {
                        lemma_digit_run(line, num_start);
                    }
                    let num_end = num_start + digit_run(line, num_start);
                    let id_end = if num_end < line.len() && is_alpha(line[num_end]) {
                        num_end + 1
                    } else {
                        num_end
                    };
                    let here = if num_end > num_start && !is_ordinal(line, id_end) {
                        seq![line.subrange(num_start, id_end)]
                    } else {
                        Seq::empty()
                    };
                    here + task_refs_from(
                        line,
                        if id_end > start + 1 {
                            id_end
                        } else {
                            start + 1
                        },
                    )
                }
            }
        },
    }
}

/// What `u8::is_ascii_whitespace` accepts: space, tab, line feed, form
/// feed, carriage return.
pub open spec fn is_ascii_space(b: u8) -> bool {
    b == 32 || b == 9 || b == 10 || b == 12 || b == 13
}

pub open spec fn skip_ascii_space(s: Seq<u8>, j: int) -> int
    decreases s.len() - j,
{
    if 0 <= j < s.len() && is_ascii_space(s[j]) {
        skip_ascii_space(s, j + 1)
    } else {
        j
    }
}

/// A byte of a `Depends on` run that starts at `j`: a digit, a comma,
/// ASCII whitespace, or a lowercase letter right after a digit.
pub open spec fn in_dep_run(s: Seq<u8>, j: int, k: int) -> bool {
    let c = s[k];
    is_digit(c) || c == 44 || is_ascii_space(c) || (is_lower(c) && k > j && is_digit(s[k - 1]))
}

pub open spec fn dep_run_end(s: Seq<u8>, j: int, k: int) -> int
    decreases s.len() - k,
{
    if 0 <= k < s.len() && in_dep_run(s, j, k) {
        dep_run_end(s, j, k + 1)
    } else {
        k
    }
}

pub proof fn lemma_skip_space_bounds(s: Seq<u8>, j: int)
    requires
        0 <= j <= s.len(),
    ensures
        j <= skip_ascii_space(s, j) <= s.len(),
    decreases s.len() - j,
{
    if 0 <= j < s.len() && is_ascii_space(s[j]) {
        lemma_skip_space_bounds(s, j + 1);
    }
}

pub proof fn lemma_dep_run_bounds(s: Seq<u8>, j: int, k: int)
    requires
        0 <= k <= s.len(),
    ensures
        k <= dep_run_end(s, j, k) <= s.len(),
    decreases s.len() - k,
{
    if 0 <= k < s.len() && in_dep_run(s, j, k) {
        lemma_dep_run_bounds(s, j, k + 1);
    }
}

/// The trimmed pieces that are task ids, in order.
pub open spec fn ids_among(parts: Seq<Seq<u8>>) -> Seq<Seq<u8>>
    decreases parts.len(),
{
    if parts.len() == 0 {
        Seq::empty()
    } else {
        let p = trim(parts.last());
        ids_among(parts.drop_last()) + if task_id_shape(p) {
            seq![p]
        } else {
            Seq::empty()
        }
    }
}

/// The ids listed after each `depends on` (any case) in `line`, scanning
/// from `from`.
pub open spec fn depends_refs_from(line: Seq<u8>, from: int) -> Seq<Seq<u8>>
    decreases line.len() - from,
{
    proof {
        lemma_words();
        lemma_find_from_bounds(ascii_lower(line), depends_word(), from);
    }
    match find_from(ascii_lower(line), depends_word(), from) {
        None => Seq::empty(),
        Some(f) => {
            proof {
                lemma_skip_space_bounds(line, f + 10);
                lemma_dep_run_bounds(line, skip_ascii_space(line, f + 10), skip_ascii_space(line, f + 10));
            }
            let j = skip_ascii_space(line, f + 10);
            let e = dep_run_end(line, j, j);
            ids_among(split_on(line.subrange(j, e), 44)) + depends_refs_from(line, e)
        },
    }
}

/// The references on one line: the `task N` ones, then the `Depends on` ones.
pub open spec fn line_refs(line: Seq<u8>) -> Seq<Seq<u8>> {
    task_refs_from(line, 0) + depends_refs_from(line, 0)
}

/// The references of the first `n` lines, each with its 1-based line number.
pub open spec fn refs_upto(lines: Seq<Seq<u8>>, n: int) -> Seq<(u32, Seq<u8>)>
    decreases n,
{
    if n <= 0 {
        Seq::empty()
    } else {
        refs_upto(lines, n - 1) + line_refs(lines[n - 1]).map_values(
            |id: Seq<u8>| (n as u32, id),
        )
    }
}

/// Every reference in `body`, with its 1-based line number, in order.
pub open spec fn spec_extract_refs(body: Seq<u8>) -> Seq<(u32, Seq<u8>)> {
    refs_upto(lines_of(body), lines_of(body).len() as int)
}

/// Line numbers are 1-based and never pass the number of lines.
pub proof fn lemma_refs_upto_lines(lines: Seq<Seq<u8>>, n: int)
    requires
        0 <= n <= u32::MAX,
    ensures
        forall|k: int|
            0 <= k < refs_upto(lines, n).len() ==> 1 <= (#[trigger] refs_upto(lines, n)[k]).0 <= n,
    decreases n,
{
    if n > 0 {
        lemma_refs_upto_lines(lines, n - 1);
        let prev = refs_upto(lines, n - 1);
        let here = line_refs(lines[n - 1]).map_values(|id: Seq<u8>| (n as u32, id));
        assert forall|k: int| 0 <= k < refs_upto(lines, n).len() implies 1 <= (
        #[trigger] refs_upto(lines, n)[k]).0 <= n by {
            if k >= prev.len() {
                assert(refs_upto(lines, n)[k] == here[k - prev.len()]);
            } else {
                assert(refs_upto(lines, n)[k] == prev[k]);
            }
        }
    }
}

/// Every reference's line number is at least 1 and at most the length of
/// the body.
pub proof fn lemma_extract_refs_lines(body: Seq<u8>)
    requires
        body.len() <= u32::MAX,
    ensures
        forall|k: int|
            0 <= k < spec_extract_refs(body).len() ==> 1 <= (#[trigger] spec_extract_refs(body)[k]).0
                <= body.len(),
{
    crate::text::lemma_lines_len(body);
    lemma_refs_upto_lines(lines_of(body), lines_of(body).len() as int);
}

fn digit_run_exec(s: &[u8], i: usize) -> (r: usize)
    requires
        i <= s@.len(),
    ensures
        r == digit_run(s@, i as int),
        i + r <= s@.len(),
{
    proof {
        lemma_digit_run(s@, i as int);
    }
    let mut k = i;
    while k < s.len() && 48 <= s[k] && s[k] <= 57
        invariant
            i <= k <= s@.len(),
            digit_run(s@, i as int) == (k - i) + digit_run(s@, k as int),
        decreases s@.len() - k,
    {
        k = k + 1;
    }
    k - i
}

fn is_ordinal_exec(line: &[u8], id_end: usize) -> (r: bool)
    requires
        id_end <= line@.len(),
    ensures
        r == is_ordinal(line@, id_end as int),
{
    proof {
        lemma_words();
    }
    let tail = slice_to_vec(line, id_end, line.len());
    let t = trim_start_exec(tail.as_slice());
    let m = ascii_lower_exec(t.as_slice());
    let of = lit("of ");
    occurs_at_exec(m.as_slice(), of.as_slice(), 0) && m.len() > 3 && 48 <= m[3] && m[3] <= 57
}

/// The ids named by `task N` phrasings in `line`.
fn task_refs_exec(line: &[u8]) -> (r: Vec<Vec<u8>>)
    ensures
        seqs_view(r@) == task_refs_from(line@, 0),
{
    proof {
        lemma_words();
    }
    let n = line.len();
    let lower = ascii_lower_exec(line);
    let word = lit("task");
    let words = lit("tasks");
    let mut out: Vec<Vec<u8>> = Vec::new();
    let mut pos: usize = 0;
    assert(seqs_view(out@) + task_refs_from(line@, 0) =~= task_refs_from(line@, 0));
    loop
        invariant
            n == line@.len(),
            lower@ == ascii_lower(line@),
            lower@.len() == n,
            word@ == task_word(),
            words@ == tasks_word(),
            task_word().len() == 4,
            pos <= n,
            seqs_view(out@) + task_refs_from(line@, pos as int) == task_refs_from(line@, 0),
        decreases n - pos,
    {
        proof {
            lemma_words();
            lemma_find_from_bounds(lower@, task_word(), pos as int);
        }
        let ghost before = seqs_view(out@);
        let start = match find_exec(lower.as_slice(), word.as_slice(), pos) {
            None => {
                assert(before + Seq::<Seq<u8>>::empty() =~= before);
                return out;
            },
            Some(s) => s,
        };
        if start > 0 && ((65 <= line[start - 1] && line[start - 1] <= 90) || (97 <= line[start
            - 1] && line[start - 1] <= 122)) {
            pos = start + 1;
            continue;
        }
        let plural = occurs_at_exec(lower.as_slice(), words.as_slice(), start);
        let after = start + 4 + if plural {
            1
        } else {
            0
        };
        if after >= n {
            assert(before + Seq::<Seq<u8>>::empty() =~= before);
            return out;
        }
        let sep = line[after];
        if sep != 32 && sep != 45 {
            pos = start + 1;
            continue;
        }
        let num_start = after + 1;
        let digits = digit_run_exec(line, num_start);
        let num_end = num_start + digits;
        let id_end = if num_end < n && ((65 <= line[num_end] && line[num_end] <= 90) || (97
            <= line[num_end] && line[num_end] <= 122)) {
            num_end + 1
        } else {
            num_end
        };
        let next = if id_end > start + 1 {
            id_end
        } else {
            start + 1
        };
        if digits > 0 && !is_ordinal_exec(line, id_end) {
            let id = slice_to_vec(line, num_start, id_end);
            let ghost idv = id@;
            out.push(id);
            assert(seqs_view(out@) =~= before.push(idv));
            assert(before.push(idv) + task_refs_from(line@, next as int) =~= before + (seq![idv]
                + task_refs_from(line@, next as int)));
        } else {
            assert(Seq::<Seq<u8>>::empty() + task_refs_from(line@, next as int) =~= task_refs_from(
                line@,
                next as int,
            ));
        }
        pos = next;
    }
}

/// The trimmed pieces of `seg` between commas that are task ids.
fn ids_among_exec(seg: &[u8]) -> (r: Vec<Vec<u8>>)
    ensures
        seqs_view(r@) == ids_among(split_on(seg@, 44)),
{
    let parts = split_on_exec(seg, 44);
    let ghost ps = split_on(seg@, 44);
    let mut out: Vec<Vec<u8>> = Vec::new();
    let mut i: usize = 0;
    assert(ps.subrange(0, 0) =~= Seq::<Seq<u8>>::empty());
    assert(seqs_view(out@) =~= Seq::<Seq<u8>>::empty());
    while i < parts.len()
        invariant
            i <= parts@.len(),
            parts@.len() == ps.len(),
            forall|k: int| 0 <= k < parts@.len() ==> (#[trigger] parts@[k])@ == ps[k],
            seqs_view(out@) == ids_among(ps.subrange(0, i as int)),
        decreases parts@.len() - i,
    {
        proof {
            assert(ps.subrange(0, i + 1).drop_last() =~= ps.subrange(0, i as int));
            assert(ps.subrange(0, i + 1).last() == ps[i as int]);
        }
        let ghost before = seqs_view(out@);
        let p = trim_exec(parts[i].as_slice());
        if is_task_id(p.as_slice()) {
            let ghost pv = p@;
            out.push(p);
            assert(seqs_view(out@) =~= before + seq![pv]);
        } else {
            assert(seqs_view(out@) =~= before + Seq::<Seq<u8>>::empty());
        }
        i = i + 1;
    }
    assert(ps.subrange(0, ps.len() as int) =~= ps);
    out
}

/// The ids listed after each `depends on` in `line`.
fn depends_refs_exec(line: &[u8]) -> (r: Vec<Vec<u8>>)
    ensures
        seqs_view(r@) == depends_refs_from(line@, 0),
{
    proof {
        lemma_words();
    }
    let n = line.len();
    let lower = ascii_lower_exec(line);
    let word = lit("depends on");
    let mut out: Vec<Vec<u8>> = Vec::new();
    let mut from: usize = 0;
    assert(seqs_view(out@) + depends_refs_from(line@, 0) =~= depends_refs_from(line@, 0));
    loop
        invariant
            n == line@.len(),
            lower@ == ascii_lower(line@),
            lower@.len() == n,
            word@ == depends_word(),
            depends_word().len() == 10,
            from <= n,
            seqs_view(out@) + depends_refs_from(line@, from as int) == depends_refs_from(line@, 0),
        decreases n - from,
    {
        proof {
            lemma_find_from_bounds(lower@, depends_word(), from as int);
        }
        let ghost before = seqs_view(out@);
        let f = match find_exec(lower.as_slice(), word.as_slice(), from) {
            None => {
                assert(before + Seq::<Seq<u8>>::empty() =~= before);
                return out;
            },
            Some(f) => f,
        };
        let mut j = f + 10;
        proof {
            lemma_skip_space_bounds(line@, j as int);
        }
        while j < n && (line[j] == 32 || line[j] == 9 || line[j] == 10 || line[j] == 12 || line[j]
            == 13)
            invariant
                n == line@.len(),
                f + 10 <= j <= n,
                skip_ascii_space(line@, j as int) == skip_ascii_space(line@, f + 10),
            decreases n - j,
        {
            j = j + 1;
        }
        proof {
            lemma_dep_run_bounds(line@, j as int, j as int);
        }
        let mut e = j;
        while e < n && (48 <= line[e] && line[e] <= 57 || line[e] == 44 || line[e] == 32 || line[e]
            == 9 || line[e] == 10 || line[e] == 12 || line[e] == 13 || (97 <= line[e] && line[e]
            <= 122 && e > j && 48 <= line[e - 1] && line[e - 1] <= 57))
            invariant
                n == line@.len(),
                j <= e <= n,
                dep_run_end(line@, j as int, e as int) == dep_run_end(line@, j as int, j as int),
            decreases n - e,
        {
            e = e + 1;
        }
        let seg = slice_to_vec(line, j, e);
        let ids = ids_among_exec(seg.as_slice());
        let ghost got = seqs_view(ids@);
        let mut k: usize = 0;
        while k < ids.len()
            invariant
                k <= ids@.len(),
                got == seqs_view(ids@),
                seqs_view(out@) == before + got.subrange(0, k as int),
            decreases ids@.len() - k,
        {
            let c = slice_to_vec(ids[k].as_slice(), 0, ids[k].len());
            assert(c@ == got[k as int]);
            let ghost prev = out@;
            out.push(c);
            proof {
                lemma_seqs_view_push(prev, c);
                assert(before + got.subrange(0, k + 1) =~= (before + got.subrange(0, k as int)).push(
                    got[k as int],
                ));
            }
            k = k + 1;
        }
        assert(got.subrange(0, got.len() as int) =~= got);
        assert(before + got + depends_refs_from(line@, e as int) =~= before + (got
            + depends_refs_from(line@, e as int)));
        from = e;
    }
}

/// Task references in `body`: each with its 1-based line number, in order
/// of lines, and on a line the `task N` phrasings before the `Depends on`
/// lists.
pub fn extract_refs(body: &[u8]) -> (r: Vec<(u32, Vec<u8>)>)
    ensures
        refs_view(r@) == spec_extract_refs(body@),
{
    let ls = lines_exec(body);
    let ghost lv = lines_of(body@);
    let mut out: Vec<(u32, Vec<u8>)> = Vec::new();
    let mut i: usize = 0;
    assert(refs_view(out@) =~= refs_upto(lv, 0));
    while i < ls.len()
        invariant
            i <= ls@.len(),
            ls@.len() == lv.len(),
            forall|m: int| 0 <= m < ls@.len() ==> (#[trigger] ls@[m])@ == lv[m],
            refs_view(out@) == refs_upto(lv, i as int),
        decreases ls@.len() - i,
    {
        let line = ls[i].as_slice();
        let a = task_refs_exec(line);
        let b = depends_refs_exec(line);
        #[verifier::truncate]
        let line_no = (i + 1) as u32;
        let ghost before = refs_view(out@);
        let ghost ids = seqs_view(a@) + seqs_view(b@);
        assert(ids == line_refs(lv[i as int]));
        let ghost tagged = ids.map_values(|id: Seq<u8>| (line_no, id));
        let mut k: usize = 0;
        while k < a.len()
            invariant
                k <= a@.len(),
                ids == seqs_view(a@) + seqs_view(b@),
                tagged == ids.map_values(|id: Seq<u8>| (line_no, id)),
                refs_view(out@) == before + tagged.subrange(0, k as int),
            decreases a@.len() - k,
        {
            let c = slice_to_vec(a[k].as_slice(), 0, a[k].len());
            assert(c@ == seqs_view(a@)[k as int]);
            assert(tagged[k as int] == (line_no, c@));
            let ghost prev = out@;
            let ghost cv = c@;
            out.push((line_no, c));
            proof {
                lemma_refs_view_push(prev, (line_no, c));
                assert(before + tagged.subrange(0, k + 1) =~= (before + tagged.subrange(
                    0,
                    k as int,
                )).push(tagged[k as int]));
            }
            k = k + 1;
        }
        let mut m: usize = 0;
        while m < b.len()
            invariant
                m <= b@.len(),
                ids == seqs_view(a@) + seqs_view(b@),
                tagged == ids.map_values(|id: Seq<u8>| (line_no, id)),
                refs_view(out@) == before + tagged.subrange(0, a@.len() + m),
            decreases b@.len() - m,
        {
            let c = slice_to_vec(b[m].as_slice(), 0, b[m].len());
            assert(c@ == seqs_view(b@)[m as int]);
            assert(tagged[a@.len() + m] == (line_no, c@));
            let ghost prev = out@;
            out.push((line_no, c));
            proof {
                lemma_refs_view_push(prev, (line_no, c));
                assert(before + tagged.subrange(0, a@.len() + m + 1) =~= (before + tagged.subrange(
                    0,
                    a@.len() + m,
                )).push(tagged[a@.len() + m]));
            }
            m = m + 1;
        }
        assert(tagged.subrange(0, tagged.len() as int) =~= tagged);
        assert(refs_upto(lv, i + 1) =~= before + tagged);
        i = i + 1;
    }
    out
}


/// A run of `n` digits at `i`, ended by a non-digit or the end.
proof fn lemma_digit_run_exact(s: Seq<u8>, i: int, n: int)
    requires
        0 <= i,
        0 <= n,
        i + n <= s.len(),
        forall|k: int| i <= k < i + n ==> is_digit(#[trigger] s[k]),
        i + n == s.len() || !is_digit(s[i + n]),
    ensures
        digit_run(s, i) == n,
    decreases n,
{
    if n > 0 {
        lemma_digit_run_exact(s, i + 1, n - 1);
    }
}

/// Each reference of line `j` is among the references of the first `n`
/// lines, numbered `j + 1`.
proof fn lemma_refs_upto_has(lines: Seq<Seq<u8>>, n: int, j: int, w: int)
    requires
        0 <= j < n <= lines.len(),
        0 <= w < line_refs(lines[j]).len(),
    ensures
        refs_upto(lines, n).contains(((j + 1) as u32, line_refs(lines[j])[w])),
    decreases n,
{
    let prev = refs_upto(lines, n - 1);
    let here = line_refs(lines[n - 1]).map_values(|id: Seq<u8>| (n as u32, id));
    assert(refs_upto(lines, n) == prev + here);
    if j == n - 1 {
        assert(refs_upto(lines, n)[prev.len() + w] == here[w]);
    } else {
        lemma_refs_upto_has(lines, n - 1, j, w);
        let k = choose|k: int| 0 <= k < prev.len() && prev[k] == ((j + 1) as u32, line_refs(lines[j])[w]);
        assert(refs_upto(lines, n)[k] == prev[k]);
    }
}

/// `task N of W` is a reference to `N` unless `W` starts with a digit: a
/// line that reads `task`, a space, the digits `N`, ` of ` and then
/// anything that is not a number (`task 118 of the arc`) yields the
/// reference `N`, numbered by its line, from `extract_refs`.
pub proof fn lemma_of_without_number_is_a_reference(body: Seq<u8>, j: int, n: Seq<u8>, w: Seq<u8>)
    requires
        0 <= j < lines_of(body).len(),
        lines_of(body)[j] == task_word() + seq![32u8] + n + seq![32u8] + of_word() + w,
        n.len() > 0,
        forall|k: int| 0 <= k < n.len() ==> is_digit(#[trigger] n[k]),
        w.len() == 0 || !is_digit(w[0]),
    ensures
        spec_extract_refs(body).contains(((j + 1) as u32, n)),
{
    lemma_words();
    let lines = lines_of(body);
    let line = lines[j];
    let lower = ascii_lower(line);
    assert(line.len() == 5 + n.len() + 4 + w.len());
    assert forall|k: int| 0 <= k < 5 implies #[trigger] lower[k] == line[k] by {}
    assert(lower.subrange(0, 4) =~= task_word());
    assert(occurs_at(lower, task_word(), 0));
    crate::text::lemma_find_from_at(lower, task_word(), 0, 0);
    assert(lower[4] == 32);
    assert(!occurs_at(lower, tasks_word(), 0)) by {
        if occurs_at(lower, tasks_word(), 0) {
            assert(lower.subrange(0, 5)[4] == tasks_word()[4]);
        }
    }
    assert(line[4] == 32);
    let num_end: int = 5 + n.len() as int;
    assert forall|k: int| 5 <= k < num_end implies is_digit(#[trigger] line[k]) by {
        assert(line[k] == n[k - 5]);
    }
    assert(line[num_end] == 32);
    lemma_digit_run_exact(line, 5, n.len() as int);
    assert(!is_alpha(line[num_end]));
    let tail = line.subrange(num_end, line.len() as int);
    assert(tail =~= seq![32u8] + of_word() + w);
    assert(crate::text::ws_len_at(tail, 0) == 1);
    assert(crate::text::ws_len_at(tail, 1) == 0);
    assert(crate::text::skip_ws(tail, 1) == 1);
    assert(crate::text::skip_ws(tail, 0) == 1);
    let ts = trim_start(tail);
    assert(ts =~= of_word() + w);
    let m = ascii_lower(ts);
    if m.len() > 3 {
        assert(m[3] == ts[3]
            || (65 <= ts[3] <= 90 && m[3] == ts[3] + 32));
        assert(ts[3] == w[0]);
    }
    assert(!is_ordinal(line, num_end));
    assert(line.subrange(5, num_end) =~= n);
    assert(task_refs_from(line, 0)[0] == n);
    assert(line_refs(line)[0] == n);
    lemma_refs_upto_has(lines, lines.len() as int, j, 0);
}

} // verus!
