//! Reconciliation reaches its fixpoint in one step: once `--fix` has
//! rewritten `todo.md`, reconciling the new text against the same tree
//! drops nothing and adds nothing.

use vstd::prelude::*;
use vstd::string::StringSliceAdditionalSpecFns;
use crate::findings::join;
use crate::fix::{
    additions, block_end, entry_line, first_h1, live_named_from, open_names, rebuilt_lines,
    scan_region, spec_reconcile, strip_hashes, title,
};
use crate::sorted::{lemma_pos_from, pos_from, set_insert};
use crate::taskfile::TaskFileView;
use crate::tasks::{
    begin_marker, end_marker, id_digits_len, lemma_marker_facts, lemma_region_ordered,
    spec_entry_head, spec_todo_region, task_id_shape,
};
use crate::text::{
    ends_in_cr, index_of_byte, is_digit, is_lower, lacks_byte, lemma_find_from_at,
    lemma_find_from_bounds, lemma_find_from_first, lemma_lines_are_pieces, lemma_lines_of_line_then,
    lemma_lines_of_single, lemma_occurs_byte, lines_of, occurs_at, occurs_in, skip_ws, trim_start,
    ws_len_at,
};
use crate::tree::basename;

verus! {

/// A name that an entry line can hold: not empty, and no `\n`, `]` or `)`
/// in it.
pub open spec fn name_fits(name: Seq<u8>) -> bool {
    &&& name.len() > 0
    &&& lacks_byte(name, 10)
    &&& lacks_byte(name, 93)
    &&& lacks_byte(name, 41)
}

/// The task that the list shows under `name` has a task id, and `name`
/// fits an entry line.
pub open spec fn name_listable(tasks: Seq<TaskFileView>, name: Seq<u8>) -> bool {
    live_named_from(tasks, name, 0) matches Some(t) ==> (t.id matches Some(id) ==> task_id_shape(id)
        && name_fits(name))
}

/// Every task with an id that the list must show can be listed by an entry
/// line.
pub open spec fn listable(tasks: Seq<TaskFileView>) -> bool {
    forall|k: int|
        0 <= k < open_names(tasks).len() ==> #[trigger] name_listable(tasks, open_names(tasks)[k])
}

/// The task the list shows under `name` has an id.
pub open spec fn name_has_id(tasks: Seq<TaskFileView>, name: Seq<u8>) -> bool {
    live_named_from(tasks, name, 0) matches Some(t) ==> t.id is Some
}

/// Every task that the list must show has an id.
pub open spec fn has_ids(tasks: Seq<TaskFileView>) -> bool {
    forall|k: int|
        0 <= k < open_names(tasks).len() ==> #[trigger] name_has_id(tasks, open_names(tasks)[k])
}

/// Lines that a second reconciliation reads back as they are: none ends in
/// a carriage return or holds the end marker.
pub open spec fn lines_stay(lines: Seq<Seq<u8>>) -> bool {
    forall|k: int|
        0 <= k < lines.len() ==> !ends_in_cr(#[trigger] lines[k]) && !occurs_in(
            lines[k],
            end_marker(),
        )
}

/// The bytes of the separator between an entry's link and its title.
proof fn lemma_dash_bytes()
    ensures
        ") — ".spec_bytes() == seq![41u8, 32, 0xE2, 0x80, 0x94, 32],
{
    reveal_strlit(") — ");
    reveal_with_fuel(vstd::utf8::encode_utf8, 5);
    assert(") — "@ =~= seq![')', ' ', '—', ' ']);
    assert((41u32 & 0x7F) as u8 == 41u8) by (bit_vector);
    assert((32u32 & 0x7F) as u8 == 32u8) by (bit_vector);
    assert(vstd::utf8::leading_byte_width_3(0x2014u32) == 0xE2u8) by (bit_vector);
    assert(vstd::utf8::second_last_continuation_byte(0x2014u32) == 0x80u8) by (bit_vector);
    assert(vstd::utf8::last_continuation_byte(0x2014u32) == 0x94u8) by (bit_vector);
    assert(") — ".spec_bytes() =~= seq![41u8, 32, 0xE2, 0x80, 0x94, 32]);
}

/// The bytes of the other literals an entry line and the markers are made of.
proof fn lemma_literal_bytes()
    ensures
        ". [".spec_bytes() == seq![46u8, 32, 91],
        "](".spec_bytes() == seq![93u8, 40],
        lacks_byte("untitled".spec_bytes(), 10),
        end_marker() == seq![
            60u8, 33, 45, 45, 32, 120, 116, 97, 115, 107, 58, 116, 97, 115, 107, 115, 32, 101, 110,
            100, 32, 45, 45, 62,
        ],
        lacks_byte(end_marker(), 10),
        forall|k: int| 1 <= k < 24 ==> end_marker()[k] != 60u8,
{
    reveal_strlit(". [");
    reveal_strlit("](");
    reveal_strlit("untitled");
    reveal_strlit("<!-- xtask:tasks end -->");
    vstd::string::is_ascii_spec_bytes(". [");
    vstd::string::is_ascii_spec_bytes("](");
    vstd::string::is_ascii_spec_bytes("untitled");
    vstd::string::is_ascii_spec_bytes("<!-- xtask:tasks end -->");
    assert(". [".spec_bytes() =~= seq![46u8, 32, 91]);
    assert("](".spec_bytes() =~= seq![93u8, 40]);
    assert(end_marker() =~= seq![
        60u8, 33, 45, 45, 32, 120, 116, 97, 115, 107, 58, 116, 97, 115, 107, 115, 32, 101, 110,
        100, 32, 45, 45, 62,
    ]);
    assert(lacks_byte(end_marker(), 10));
    assert(forall|k: int| 1 <= k < 24 ==> end_marker()[k] != 60u8);
}

/// A byte absent from both parts is absent from their concatenation.
proof fn lemma_lacks_concat(a: Seq<u8>, c: Seq<u8>, b: u8)
    requires
        lacks_byte(a, b),
        lacks_byte(c, b),
    ensures
        lacks_byte(a + c, b),
{
    assert forall|i: int| 0 <= i < (a + c).len() implies #[trigger] (a + c)[i] != b by {
        if i >= a.len() {
            assert((a + c)[i] == c[i - a.len()]);
        }
    }
}

/// A task id holds only digits and perhaps one lowercase letter.
proof fn lemma_id_bytes(id: Seq<u8>)
    requires
        task_id_shape(id),
    ensures
        forall|i: int| 0 <= i < id.len() ==> is_digit(#[trigger] id[i]) || is_lower(id[i]),
{
    assert forall|i: int| 0 <= i < id.len() implies is_digit(#[trigger] id[i]) || is_lower(id[i]) by {
        if i >= id_digits_len(id) {
            assert(i == id.len() - 1);
        }
    }
}

/// An entry line added for a task reads back as an entry for that task.
#[verifier::spinoff_prover]
#[verifier::rlimit(40)]
proof fn lemma_entry_line_parses(id: Seq<u8>, name: Seq<u8>, ttl: Seq<u8>)
    requires
        task_id_shape(id),
        name_fits(name),
    ensures
        spec_entry_head(entry_line(id, name, ttl)) == Some((id, name)),
{
    lemma_literal_bytes();
    lemma_dash_bytes();
    lemma_id_bytes(id);
    let line = entry_line(id, name, ttl);
    let dot = ". [".spec_bytes();
    let n = id.len() as int;
    assert(line[0] == id[0]);
    assert(ws_len_at(line, 0) == 0);
    assert(skip_ws(line, 0) == 0);
    let t = trim_start(line);
    assert(t =~= line);
    assert(line.subrange(n, n + 3) =~= dot);
    assert forall|i: int| 0 <= i < n implies !#[trigger] occurs_at(line, dot, i) by {
        if occurs_at(line, dot, i) {
            assert(line.subrange(i, i + 3)[0] == line[i]);
            assert(line[i] == id[i]);
        }
    }
    lemma_find_from_at(line, dot, 0, n);
    let rest = line.subrange(n + 3, line.len() as int);
    assert(rest =~= name + "](".spec_bytes() + name + ") — ".spec_bytes() + ttl);
    let q = name.len() as int;
    lemma_occurs_byte(rest, 93, q);
    assert forall|i: int| 0 <= i < q implies !#[trigger] occurs_at(rest, seq![93u8], i) by {
        lemma_occurs_byte(rest, 93, i);
        assert(rest[i] == name[i]);
    }
    lemma_find_from_at(rest, seq![93u8], 0, q);
    let after = rest.subrange(q + 1, rest.len() as int);
    assert(after[0] == 40);
    let inner = after.subrange(1, after.len() as int);
    assert(inner =~= name + ") — ".spec_bytes() + ttl);
    lemma_occurs_byte(inner, 41, q);
    assert forall|i: int| 0 <= i < q implies !#[trigger] occurs_at(inner, seq![41u8], i) by {
        lemma_occurs_byte(inner, 41, i);
        assert(inner[i] == name[i]);
    }
    lemma_find_from_at(inner, seq![41u8], 0, q);
    assert(inner.subrange(0, q) =~= name);
    assert(rest.subrange(0, q) =~= name);
    assert(t.subrange(0, n) =~= id);
}

/// Stripping `# ` prefixes adds no byte.
proof fn lemma_strip_hashes_lacks(s: Seq<u8>, b: u8)
    requires
        lacks_byte(s, b),
    ensures
        lacks_byte(strip_hashes(s), b),
    decreases s.len(),
{
    if s.len() >= 2 && s[0] == 35 && s[1] == 32 {
        let r = s.subrange(2, s.len() as int);
        assert forall|i: int| 0 <= i < r.len() implies #[trigger] r[i] != b by {
            assert(r[i] == s[i + 2]);
        }
        lemma_strip_hashes_lacks(r, b);
    }
}

/// The first H1 is one of the lines.
proof fn lemma_first_h1_is_line(lines: Seq<Seq<u8>>, i: int)
    requires
        0 <= i,
    ensures
        first_h1(lines, i) matches Some(l) ==> exists|k: int| 0 <= k < lines.len() && #[trigger] lines[k] == l,
    decreases lines.len() - i,
{
    if i < lines.len() && !(lines[i].len() >= 2 && lines[i][0] == 35 && lines[i][1] == 32) {
        lemma_first_h1_is_line(lines, i + 1);
    }
}

/// A title is taken from one line, so it holds no `\n`.
proof fn lemma_title_lacks_newline(body: Seq<u8>, id: Seq<u8>)
    ensures
        lacks_byte(title(body, id), 10),
{
    lemma_literal_bytes();
    let lines = lines_of(body);
    lemma_lines_are_pieces(body);
    lemma_first_h1_is_line(lines, 0);
    if let Some(l) = first_h1(lines, 0) {
        let k = choose|k: int| 0 <= k < lines.len() && #[trigger] lines[k] == l;
        assert(lacks_byte(lines[k], 10));
        lemma_strip_hashes_lacks(l, 10);
        let t = strip_hashes(l);
        let p = "Task ".spec_bytes() + id + ": ".spec_bytes();
        if crate::text::occurs_at(t, p, 0) {
            let r = t.subrange(p.len() as int, t.len() as int);
            assert forall|i: int| 0 <= i < r.len() implies #[trigger] r[i] != 10 by {
                assert(r[i] == t[i + p.len()]);
            }
        }
    }
}

/// An entry line for a task id, a fitting name and a title holds no `\n`.
proof fn lemma_entry_line_lacks_newline(id: Seq<u8>, name: Seq<u8>, body: Seq<u8>)
    requires
        task_id_shape(id),
        name_fits(name),
    ensures
        lacks_byte(entry_line(id, name, title(body, id)), 10),
        entry_line(id, name, title(body, id)).len() > 0,
{
    lemma_literal_bytes();
    lemma_dash_bytes();
    lemma_id_bytes(id);
    lemma_title_lacks_newline(body, id);
    let dot = ". [".spec_bytes();
    let mid = "](".spec_bytes();
    let dash = ") — ".spec_bytes();
    assert(lacks_byte(id, 10));
    assert(lacks_byte(dot, 10));
    assert(lacks_byte(mid, 10));
    assert(lacks_byte(dash, 10));
    lemma_lacks_concat(id, dot, 10);
    lemma_lacks_concat(id + dot, name, 10);
    lemma_lacks_concat(id + dot + name, mid, 10);
    lemma_lacks_concat(id + dot + name + mid, name, 10);
    lemma_lacks_concat(id + dot + name + mid + name, dash, 10);
    lemma_lacks_concat(id + dot + name + mid + name + dash, title(body, id), 10);
}

/// A basename holds no `/`.
proof fn lemma_basename_plain(s: Seq<u8>)
    ensures
        lacks_byte(basename(s), 47),
    decreases s.len(),
{
    lemma_find_from_bounds(s, seq![47u8], 0);
    match index_of_byte(s, 47) {
        None => {
            assert forall|i: int| 0 <= i < s.len() implies #[trigger] s[i] != 47 by {
                if s[i] == 47 {
                    lemma_occurs_byte(s, 47, i);
                    lemma_find_from_first(s, seq![47u8], 0, i);
                }
            }
        },
        Some(k) => {
            lemma_basename_plain(s.subrange(k + 1, s.len() as int));
        },
    }
}

/// A name with no `/` is its own basename.
proof fn lemma_basename_of_plain(s: Seq<u8>)
    requires
        lacks_byte(s, 47),
    ensures
        basename(s) == s,
{
    lemma_find_from_bounds(s, seq![47u8], 0);
    if let Some(k) = index_of_byte(s, 47) {
        lemma_occurs_byte(s, 47, k);
    }
}

/// The names that the list must show are basenames: none holds a `/`.
proof fn lemma_open_names_plain(tasks: Seq<TaskFileView>)
    ensures
        forall|k: int| 0 <= k < open_names(tasks).len() ==> lacks_byte(#[trigger] open_names(tasks)[k], 47),
    decreases tasks.len(),
{
    if tasks.len() > 0 {
        let prev = open_names(tasks.drop_last());
        lemma_open_names_plain(tasks.drop_last());
        if crate::fix::is_live_open(tasks.last()) {
            let x = basename(tasks.last().rel);
            lemma_basename_plain(tasks.last().rel);
            lemma_pos_from(prev, x, 0);
            let p = pos_from(prev, x, 0);
            let r = set_insert(prev, x);
            assert forall|k: int| 0 <= k < r.len() implies lacks_byte(#[trigger] r[k], 47) by {
                if !(p < prev.len() && prev[p] == x) {
                    if k < p {
                        assert(r[k] == prev[k]);
                    } else if k > p {
                        assert(r[k] == prev[k - 1]);
                    }
                }
            }
        }
    }
}

/// Joining splits off the first line.
proof fn lemma_join_front(lines: Seq<Seq<u8>>)
    requires
        lines.len() >= 2,
    ensures
        join(lines, seq![10u8]) == lines[0] + seq![10u8] + join(lines.drop_first(), seq![10u8]),
    decreases lines.len(),
{
    let nl = seq![10u8];
    if lines.len() == 2 {
        assert(lines.drop_last() =~= seq![lines[0]]);
        assert(lines.drop_first() =~= seq![lines[1]]);
        assert(join(lines.drop_last(), nl) == lines[0]);
        assert(join(lines.drop_first(), nl) == lines[1]);
        assert(lines.last() == lines[1]);
    } else {
        lemma_join_front(lines.drop_last());
        assert(lines.drop_last().drop_first() =~= lines.drop_first().drop_last());
        assert(lines.drop_first().last() == lines.last());
        assert(join(lines, nl) =~= lines[0] + nl + join(lines.drop_first(), nl));
    }
}

/// Lines with no `\n` and no closing carriage return, joined by `\n`, read
/// back as themselves: with a final `\n`, exactly; without one, less a
/// final empty line.
proof fn lemma_lines_of_join(lines: Seq<Seq<u8>>)
    requires
        forall|k: int| 0 <= k < lines.len() ==> lacks_byte(#[trigger] lines[k], 10) && !ends_in_cr(lines[k]),
    ensures
        lines.len() > 0 ==> lines_of(join(lines, seq![10u8]) + seq![10u8]) == lines,
        lines_of(join(lines, seq![10u8])) == (if lines.len() > 0 && lines.last().len() == 0 {
            lines.drop_last()
        } else {
            lines
        }),
    decreases lines.len(),
{
    let nl = seq![10u8];
    let empty = Seq::<u8>::empty();
    assert(lacks_byte(empty, 10));
    lemma_lines_of_single(empty);
    if lines.len() == 1 {
        let x = lines[0];
        lemma_lines_of_line_then(x, empty);
        lemma_lines_of_single(x);
        assert(x + nl + empty =~= x + nl);
        assert(seq![x] + Seq::<Seq<u8>>::empty() =~= lines);
        if x.len() == 0 {
            assert(lines.drop_last() =~= Seq::<Seq<u8>>::empty());
        }
    } else if lines.len() >= 2 {
        let tail = lines.drop_first();
        lemma_lines_of_join(tail);
        lemma_join_front(lines);
        let jt = join(tail, nl);
        lemma_lines_of_line_then(lines[0], jt + nl);
        lemma_lines_of_line_then(lines[0], jt);
        assert(lines[0] + nl + jt + nl =~= lines[0] + nl + (jt + nl));
        assert(seq![lines[0]] + tail =~= lines);
        assert(seq![lines[0]] + tail.drop_last() =~= lines.drop_last());
    }
}

/// An occurrence, in lines joined by `\n`, of a pattern with no `\n` lies
/// inside one of the lines.
proof fn lemma_join_occurrence(lines: Seq<Seq<u8>>, p: Seq<u8>, i: int)
    requires
        p.len() > 0,
        lacks_byte(p, 10),
        occurs_at(join(lines, seq![10u8]), p, i),
    ensures
        exists|k: int| 0 <= k < lines.len() && occurs_in(#[trigger] lines[k], p),
    decreases lines.len(),
{
    let nl = seq![10u8];
    let j = join(lines, nl);
    if lines.len() == 1 {
        assert(occurs_in(lines[0], p));
    } else if lines.len() >= 2 {
        let jd = join(lines.drop_last(), nl);
        let last = lines.last();
        assert(j == jd + nl + last);
        let m = jd.len() as int;
        if i + p.len() <= m {
            assert(jd.subrange(i, i + p.len()) =~= j.subrange(i, i + p.len()));
            assert(occurs_at(jd, p, i));
            lemma_join_occurrence(lines.drop_last(), p, i);
            let k = choose|k: int|
                0 <= k < lines.drop_last().len() && occurs_in(#[trigger] lines.drop_last()[k], p);
            assert(lines[k] == lines.drop_last()[k]);
        } else if i > m {
            assert(last.subrange(i - m - 1, i - m - 1 + p.len()) =~= j.subrange(i, i + p.len()));
            assert(occurs_at(last, p, i - m - 1));
            assert(lines[lines.len() - 1] == last);
        } else {
            assert(j[m] == 10);
            assert(j.subrange(i, i + p.len())[m - i] == j[m]);
        }
    }
}

/// The name an entry line lists, if it is an entry line.
pub open spec fn entry_name(line: Seq<u8>) -> Option<Seq<u8>> {
    match spec_entry_head(line) {
        Some((_number, file)) => Some(basename(file)),
        None => None,
    }
}

/// Not an entry line, or one whose task the list must show.
pub open spec fn entry_is_live(tasks: Seq<TaskFileView>, line: Seq<u8>) -> bool {
    entry_name(line) matches Some(nm) ==> live_named_from(tasks, nm, 0) is Some
}

/// `x` is one of `lines[i..]`.
pub open spec fn among_from(lines: Seq<Seq<u8>>, i: int, x: Seq<u8>) -> bool {
    exists|k: int| i <= k < lines.len() && #[trigger] lines[k] == x
}

/// The lines of an entry block after its entry line are no entry lines.
proof fn lemma_block_is_plain(lines: Seq<Seq<u8>>, j: int)
    requires
        0 <= j <= lines.len(),
    ensures
        j <= block_end(lines, j) <= lines.len(),
        forall|k: int| j <= k < block_end(lines, j) ==> spec_entry_head(#[trigger] lines[k]) is None,
    decreases lines.len() - j,
{
    if j < lines.len() && spec_entry_head(lines[j]) is None && !crate::fix::is_header(lines[j]) {
        lemma_block_is_plain(lines, j + 1);
    }
}

/// The lines a scan keeps are lines of the region, and each entry among
/// them lists a task that the list must show.
proof fn lemma_scan_kept(lines: Seq<Seq<u8>>, i: int, tasks: Seq<TaskFileView>)
    requires
        0 <= i <= lines.len(),
    ensures
        forall|m: int|
            0 <= m < scan_region(lines, i, tasks).0.len() ==> among_from(
                lines,
                i,
                #[trigger] scan_region(lines, i, tasks).0[m],
            ) && entry_is_live(tasks, scan_region(lines, i, tasks).0[m]),
    decreases lines.len() - i,
{
    let n = lines.len() as int;
    if i < n {
        let sc = scan_region(lines, i, tasks);
        match spec_entry_head(lines[i]) {
            None => {
                lemma_scan_kept(lines, i + 1, tasks);
                let rest = scan_region(lines, i + 1, tasks);
                assert(sc.0 == seq![lines[i]] + rest.0);
                assert forall|m: int| 0 <= m < sc.0.len() implies among_from(
                    lines,
                    i,
                    #[trigger] sc.0[m],
                ) && entry_is_live(tasks, sc.0[m]) by {
                    if m == 0 {
                        assert(lines[i] == sc.0[m]);
                    } else {
                        assert(sc.0[m] == rest.0[m - 1]);
                        assert(among_from(lines, i + 1, rest.0[m - 1]));
                    }
                }
            },
            Some((number, file)) => {
                lemma_block_is_plain(lines, i + 1);
                let j = block_end(lines, i + 1);
                lemma_scan_kept(lines, j, tasks);
                let rest = scan_region(lines, j, tasks);
                if live_named_from(tasks, basename(file), 0) is Some {
                    assert(sc.0 == lines.subrange(i, j) + rest.0);
                    assert forall|m: int| 0 <= m < sc.0.len() implies among_from(
                        lines,
                        i,
                        #[trigger] sc.0[m],
                    ) && entry_is_live(tasks, sc.0[m]) by {
                        if m < j - i {
                            assert(sc.0[m] == lines[i + m]);
                            if m > 0 {
                                assert(spec_entry_head(lines[i + m]) is None);
                            }
                        } else {
                            assert(sc.0[m] == rest.0[m - (j - i)]);
                            assert(among_from(lines, j, rest.0[m - (j - i)]));
                        }
                    }
                } else {
                    assert(sc.0 == rest.0);
                    assert forall|m: int| 0 <= m < sc.0.len() implies among_from(
                        lines,
                        i,
                        #[trigger] sc.0[m],
                    ) && entry_is_live(tasks, sc.0[m]) by {
                        assert(among_from(lines, j, rest.0[m]));
                    }
                }
            },
        }
    }
}

/// Each name a scan keeps is listed by an entry line among the lines kept.
proof fn lemma_scan_names(lines: Seq<Seq<u8>>, i: int, tasks: Seq<TaskFileView>)
    requires
        0 <= i <= lines.len(),
    ensures
        forall|m: int|
            0 <= m < scan_region(lines, i, tasks).2.len() ==> exists|q: int|
                0 <= q < scan_region(lines, i, tasks).0.len() && #[trigger] entry_name(
                    scan_region(lines, i, tasks).0[q],
                ) == Some(#[trigger] scan_region(lines, i, tasks).2[m]),
    decreases lines.len() - i,
{
    let n = lines.len() as int;
    if i < n {
        let sc = scan_region(lines, i, tasks);
        match spec_entry_head(lines[i]) {
            None => {
                lemma_scan_names(lines, i + 1, tasks);
                let rest = scan_region(lines, i + 1, tasks);
                assert(sc.0 == seq![lines[i]] + rest.0);
                assert forall|m: int| 0 <= m < sc.2.len() implies exists|q: int|
                    0 <= q < sc.0.len() && #[trigger] entry_name(sc.0[q]) == Some(
                        #[trigger] sc.2[m],
                    ) by {
                    let q = choose|q: int|
                        0 <= q < rest.0.len() && #[trigger] entry_name(rest.0[q]) == Some(
                            rest.2[m],
                        );
                    assert(sc.0[q + 1] == rest.0[q]);
                }
            },
            Some((number, file)) => {
                lemma_block_is_plain(lines, i + 1);
                let j = block_end(lines, i + 1);
                lemma_scan_names(lines, j, tasks);
                let rest = scan_region(lines, j, tasks);
                let name = basename(file);
                if live_named_from(tasks, name, 0) is Some {
                    assert(sc.0 == lines.subrange(i, j) + rest.0);
                    assert(sc.2 == seq![name] + rest.2);
                    assert forall|m: int| 0 <= m < sc.2.len() implies exists|q: int|
                        0 <= q < sc.0.len() && #[trigger] entry_name(sc.0[q]) == Some(
                            #[trigger] sc.2[m],
                        ) by {
                        if m == 0 {
                            assert(sc.0[0] == lines[i]);
                            assert(entry_name(sc.0[0]) == Some(sc.2[m]));
                        } else {
                            let q = choose|q: int|
                                0 <= q < rest.0.len() && #[trigger] entry_name(rest.0[q]) == Some(
                                    rest.2[m - 1],
                                );
                            assert(sc.0[q + (j - i)] == rest.0[q]);
                        }
                    }
                } else {
                    assert(sc.0 == rest.0);
                    assert(sc.2 == rest.2);
                }
            },
        }
    }
}

/// A scan over lines whose entries all list tasks that the list must show
/// drops nothing and keeps the name of each of those entries.
proof fn lemma_scan_all_live(lines: Seq<Seq<u8>>, i: int, tasks: Seq<TaskFileView>)
    requires
        0 <= i <= lines.len(),
        forall|k: int| i <= k < lines.len() ==> entry_is_live(tasks, #[trigger] lines[k]),
    ensures
        scan_region(lines, i, tasks).1.len() == 0,
        scan_region(lines, i, tasks).0 == lines.subrange(i, lines.len() as int),
        forall|k: int|
            i <= k < lines.len() && entry_name(#[trigger] lines[k]) is Some ==> scan_region(
                lines,
                i,
                tasks,
            ).2.contains(entry_name(lines[k])->0),
    decreases lines.len() - i,
{
    let n = lines.len() as int;
    if i < n {
        let sc = scan_region(lines, i, tasks);
        match spec_entry_head(lines[i]) {
            None => {
                lemma_scan_all_live(lines, i + 1, tasks);
                assert(seq![lines[i]] + lines.subrange(i + 1, n) =~= lines.subrange(i, n));
            },
            Some((number, file)) => {
                lemma_block_is_plain(lines, i + 1);
                let j = block_end(lines, i + 1);
                lemma_scan_all_live(lines, j, tasks);
                let rest = scan_region(lines, j, tasks);
                let name = basename(file);
                assert(entry_is_live(tasks, lines[i]));
                assert(lines.subrange(i, j) + lines.subrange(j, n) =~= lines.subrange(i, n));
                assert(sc.2 == seq![name] + rest.2);
                assert forall|k: int|
                    i <= k < n && entry_name(#[trigger] lines[k]) is Some implies sc.2.contains(
                    entry_name(lines[k])->0,
                ) by {
                    if k == i {
                        assert(sc.2[0] == name);
                    } else if k < j {
                        assert(spec_entry_head(lines[k]) is None);
                    } else {
                        let w = choose|w: int|
                            0 <= w < rest.2.len() && rest.2[w] == entry_name(lines[k])->0;
                        assert(sc.2[w + 1] == rest.2[w]);
                    }
                }
            },
        }
    }
}

/// The task entry that reconciliation adds for `name`, as a line.
pub open spec fn adds_entry(tasks: Seq<TaskFileView>, name: Seq<u8>, x: Seq<u8>) -> bool {
    live_named_from(tasks, name, 0) matches Some(t) && t.id matches Some(id) && x == entry_line(
        id,
        name,
        title(t.body, id),
    )
}

/// With every name kept or listing no task, reconciliation reports no
/// additions.
proof fn lemma_additions_quiet(names: Seq<Seq<u8>>, kept: Seq<Seq<u8>>, tasks: Seq<TaskFileView>)
    requires
        forall|k: int|
            0 <= k < names.len() ==> kept.contains(#[trigger] names[k]) || live_named_from(
                tasks,
                names[k],
                0,
            ) is None,
    ensures
        additions(names, kept, tasks).1.len() == 0,
    decreases names.len(),
{
    if names.len() > 0 {
        let d = names.drop_last();
        assert forall|k: int| 0 <= k < d.len() implies kept.contains(#[trigger] d[k])
            || live_named_from(tasks, d[k], 0) is None by {
            assert(d[k] == names[k]);
        }
        lemma_additions_quiet(d, kept, tasks);
        assert(names.last() == names[names.len() - 1]);
    }
}

/// The lines reconciliation adds: blank lines, and the entries for names
/// not kept.
proof fn lemma_additions_lines(names: Seq<Seq<u8>>, kept: Seq<Seq<u8>>, tasks: Seq<TaskFileView>)
    ensures
        forall|m: int|
            0 <= m < additions(names, kept, tasks).0.len() ==> (#[trigger] additions(
                names,
                kept,
                tasks,
            ).0[m]).len() == 0 || exists|k: int|
                0 <= k < names.len() && adds_entry(
                    tasks,
                    #[trigger] names[k],
                    additions(names, kept, tasks).0[m],
                ),
    decreases names.len(),
{
    if names.len() > 0 {
        let d = names.drop_last();
        lemma_additions_lines(d, kept, tasks);
        let prev = additions(d, kept, tasks);
        let add = additions(names, kept, tasks);
        let name = names.last();
        assert forall|m: int| 0 <= m < add.0.len() implies (#[trigger] add.0[m]).len() == 0
            || exists|k: int| 0 <= k < names.len() && adds_entry(tasks, #[trigger] names[k], add.0[m]) by {
            if m < prev.0.len() {
                assert(add.0[m] == prev.0[m]);
                if prev.0[m].len() != 0 {
                    let k = choose|k: int| 0 <= k < d.len() && adds_entry(tasks, #[trigger] d[k], prev.0[m]);
                    assert(names[k] == d[k]);
                }
            } else {
                assert(names[names.len() - 1] == name);
            }
        }
    }
}

/// Each name not kept whose task has an id gets its entry line.
proof fn lemma_additions_cover(names: Seq<Seq<u8>>, kept: Seq<Seq<u8>>, tasks: Seq<TaskFileView>)
    ensures
        forall|k: int|
            0 <= k < names.len() && !kept.contains(#[trigger] names[k]) ==> (live_named_from(
                tasks,
                names[k],
                0,
            ) matches Some(t) ==> (t.id matches Some(id) ==> additions(names, kept, tasks).0.contains(
                entry_line(id, names[k], title(t.body, id)),
            ))),
    decreases names.len(),
{
    if names.len() > 0 {
        let d = names.drop_last();
        lemma_additions_cover(d, kept, tasks);
        let prev = additions(d, kept, tasks);
        let add = additions(names, kept, tasks);
        assert forall|k: int|
            0 <= k < names.len() && !kept.contains(#[trigger] names[k]) implies (live_named_from(
            tasks,
            names[k],
            0,
        ) matches Some(t) ==> (t.id matches Some(id) ==> add.0.contains(
            entry_line(id, names[k], title(t.body, id)),
        ))) by {
            if let Some(t) = live_named_from(tasks, names[k], 0) {
                if let Some(id) = t.id {
                    let x = entry_line(id, names[k], title(t.body, id));
                    if k < d.len() {
                        assert(d[k] == names[k]);
                        let w = choose|w: int| 0 <= w < prev.0.len() && prev.0[w] == x;
                        assert(add.0[w] == prev.0[w]);
                    } else {
                        assert(names.last() == names[k]);
                        assert(add.0[prev.0.len() + 1int] == x);
                    }
                }
            }
        }
    }
}

/// An empty line is no entry line.
proof fn lemma_empty_not_entry()
    ensures
        entry_name(Seq::<u8>::empty()) is None,
{
    lemma_literal_bytes();
    let e = Seq::<u8>::empty();
    assert(skip_ws(e, 0) == 0);
    assert(trim_start(e) =~= e);
}

/// What an added entry line is: a line with no `\n` that reads back as an
/// entry for its task.
proof fn lemma_added_entry_facts(tasks: Seq<TaskFileView>, name: Seq<u8>, x: Seq<u8>)
    requires
        name_listable(tasks, name),
        lacks_byte(name, 47),
        adds_entry(tasks, name, x),
    ensures
        lacks_byte(x, 10),
        x.len() > 0,
        entry_name(x) == Some(name),
        entry_is_live(tasks, x),
{
    let t = live_named_from(tasks, name, 0)->0;
    let id = t.id->0;
    lemma_entry_line_parses(id, name, title(t.body, id));
    lemma_entry_line_lacks_newline(id, name, t.body);
    lemma_basename_of_plain(name);
}

/// The rewritten text's generated region is exactly the rebuilt one.
proof fn lemma_new_region(text: Seq<u8>, rebuilt: Seq<Seq<u8>>, sfx: Seq<u8>)
    requires
        spec_todo_region(text) is Some,
        sfx == seq![10u8] || sfx.len() == 0,
        forall|k: int| 0 <= k < rebuilt.len() ==> !occurs_in(#[trigger] rebuilt[k], end_marker()),
    ensures
        ({
            let (b, e) = spec_todo_region(text)->0;
            let head = b + begin_marker().len();
            let nr = join(rebuilt, seq![10u8]) + sfx;
            let t = text.subrange(0, head) + nr + end_marker() + text.subrange(
                e + end_marker().len(),
                text.len() as int,
            );
            spec_todo_region(t) == Some((b, head + nr.len()))
        }),
{
    lemma_region_ordered(text);
    lemma_marker_facts();
    lemma_literal_bytes();
    let (b, e) = spec_todo_region(text)->0;
    let bm = begin_marker();
    let em = end_marker();
    let head = b + 26;
    let j = join(rebuilt, seq![10u8]);
    let nr = j + sfx;
    let tail = text.subrange(e + 24, text.len() as int);
    let t = text.subrange(0, head) + nr + em + tail;
    let e2 = head + nr.len();
    lemma_find_from_bounds(text, bm, 0);
    lemma_find_from_bounds(text, em, 0);
    assert(t.subrange(b, b + 26) =~= text.subrange(b, b + 26));
    assert(occurs_at(t, bm, b));
    assert forall|i: int| 0 <= i < b implies !#[trigger] occurs_at(t, bm, i) by {
        if occurs_at(t, bm, i) {
            assert(text.subrange(i, i + 26) =~= t.subrange(i, i + 26));
            lemma_find_from_first(text, bm, 0, i);
        }
    }
    lemma_find_from_at(t, bm, 0, b);
    assert(t.subrange(e2, e2 + 24) =~= em);
    assert(occurs_at(t, em, e2));
    assert forall|i: int| 0 <= i < e2 implies !#[trigger] occurs_at(t, em, i) by {
        if occurs_at(t, em, i) {
            let w = t.subrange(i, i + 24);
            if i + 24 <= head {
                assert(text.subrange(i, i + 24) =~= w);
                lemma_find_from_first(text, em, 0, i);
            } else if i < head {
                assert(w[0] == t[i]);
                assert(t[i] == text[i]);
                assert(text.subrange(b, b + 26)[i - b] == text[i]);
            } else if i + 24 <= head + j.len() {
                assert(j.subrange(i - head, i - head + 24) =~= w);
                assert(occurs_at(j, em, i - head));
                lemma_join_occurrence(rebuilt, em, i - head);
            } else {
                let pp = head + j.len();
                assert(w[pp - i] == t[pp]);
                if sfx.len() == 0 {
                    assert(t[pp] == em[0]);
                } else {
                    assert(t[pp] == 10);
                }
            }
        }
    }
    lemma_find_from_at(t, em, 0, e2);
}

/// Every rebuilt line has no `\n`, and each entry among them lists a task
/// that the list must show.
proof fn lemma_rebuilt_lines_live(tasks: Seq<TaskFileView>, region: Seq<u8>)
    requires
        listable(tasks),
    ensures
        forall|m: int|
            0 <= m < rebuilt_lines(tasks, region).len() ==> lacks_byte(
                #[trigger] rebuilt_lines(tasks, region)[m],
                10,
            ) && entry_is_live(tasks, rebuilt_lines(tasks, region)[m]),
{
    let lines = lines_of(region);
    let sc = scan_region(lines, 0, tasks);
    let names = open_names(tasks);
    let add = additions(names, sc.2, tasks);
    let rebuilt = rebuilt_lines(tasks, region);
    assert(rebuilt == sc.0 + add.0);
    lemma_lines_are_pieces(region);
    lemma_scan_kept(lines, 0, tasks);
    lemma_additions_lines(names, sc.2, tasks);
    lemma_open_names_plain(tasks);
    lemma_empty_not_entry();
    assert forall|m: int| 0 <= m < rebuilt.len() implies lacks_byte(#[trigger] rebuilt[m], 10)
        && entry_is_live(tasks, rebuilt[m]) by {
        if m < sc.0.len() {
            assert(rebuilt[m] == sc.0[m]);
            assert(among_from(lines, 0, sc.0[m]));
            let k = choose|k: int| 0 <= k < lines.len() && #[trigger] lines[k] == sc.0[m];
            assert(lacks_byte(lines[k], 10));
        } else {
            let x = add.0[m - sc.0.len()];
            assert(rebuilt[m] == x);
            if x.len() > 0 {
                let k = choose|k: int| 0 <= k < names.len() && adds_entry(tasks, #[trigger] names[k], x);
                assert(name_listable(tasks, names[k]));
                lemma_added_entry_facts(tasks, names[k], x);
            } else {
                assert(x =~= Seq::<u8>::empty());
            }
        }
    }
}

/// Every name that the list must show is listed by an entry among the
/// rebuilt lines.
proof fn lemma_rebuilt_lists_names(tasks: Seq<TaskFileView>, region: Seq<u8>)
    requires
        listable(tasks),
    ensures
        forall|k: int|
            0 <= k < open_names(tasks).len() && live_named_from(
                tasks,
                #[trigger] open_names(tasks)[k],
                0,
            ) is Some && live_named_from(tasks, open_names(tasks)[k], 0)->0.id is Some ==> exists|m: int|
                0 <= m < rebuilt_lines(tasks, region).len() && #[trigger] entry_name(
                    rebuilt_lines(tasks, region)[m],
                ) == Some(open_names(tasks)[k]),
{
    let lines = lines_of(region);
    let sc = scan_region(lines, 0, tasks);
    let names = open_names(tasks);
    let add = additions(names, sc.2, tasks);
    let rebuilt = rebuilt_lines(tasks, region);
    assert(rebuilt == sc.0 + add.0);
    lemma_scan_names(lines, 0, tasks);
    lemma_additions_cover(names, sc.2, tasks);
    lemma_open_names_plain(tasks);
    assert forall|k: int|
        0 <= k < names.len() && live_named_from(tasks, #[trigger] names[k], 0) is Some
            && live_named_from(tasks, names[k], 0)->0.id is Some implies exists|m: int|
        0 <= m < rebuilt.len() && #[trigger] entry_name(rebuilt[m]) == Some(names[k]) by {
        let name = names[k];
        let tk = live_named_from(tasks, name, 0)->0;
        assert(name_listable(tasks, name));
        if sc.2.contains(name) {
            let w = choose|w: int| 0 <= w < sc.2.len() && sc.2[w] == name;
            let q = choose|q: int| 0 <= q < sc.0.len() && #[trigger] entry_name(sc.0[q]) == Some(sc.2[w]);
            assert(rebuilt[q] == sc.0[q]);
        } else {
            let id = tk.id->0;
            let x = entry_line(id, name, title(tk.body, id));
            let w = choose|w: int| 0 <= w < add.0.len() && add.0[w] == x;
            assert(rebuilt[sc.0.len() + w] == x);
            assert(adds_entry(tasks, name, x));
            lemma_added_entry_facts(tasks, name, x);
        }
    }
}

/// Rebuilt lines, joined by `\n` with or without a final `\n`, read back
/// with the same non-empty lines.
proof fn lemma_reread(rebuilt: Seq<Seq<u8>>, sfx: Seq<u8>)
    requires
        forall|m: int| 0 <= m < rebuilt.len() ==> lacks_byte(#[trigger] rebuilt[m], 10) && !ends_in_cr(rebuilt[m]),
        sfx == seq![10u8] || sfx.len() == 0,
    ensures
        forall|k: int|
            0 <= k < lines_of(join(rebuilt, seq![10u8]) + sfx).len() ==> (#[trigger] lines_of(
                join(rebuilt, seq![10u8]) + sfx,
            )[k]).len() == 0 || exists|m: int|
                0 <= m < rebuilt.len() && #[trigger] rebuilt[m] == lines_of(
                    join(rebuilt, seq![10u8]) + sfx,
                )[k],
        forall|m: int|
            0 <= m < rebuilt.len() && (#[trigger] rebuilt[m]).len() > 0 ==> exists|k: int|
                0 <= k < lines_of(join(rebuilt, seq![10u8]) + sfx).len() && #[trigger] lines_of(
                    join(rebuilt, seq![10u8]) + sfx,
                )[k] == rebuilt[m],
{
    let nl = seq![10u8];
    let nr = join(rebuilt, nl) + sfx;
    lemma_lines_of_join(rebuilt);
    let lines2 = lines_of(nr);
    if sfx.len() == 0 {
        assert(nr =~= join(rebuilt, nl));
    } else if rebuilt.len() == 0 {
        let empty = Seq::<u8>::empty();
        assert(lacks_byte(empty, 10));
        lemma_lines_of_line_then(empty, empty);
        lemma_lines_of_single(empty);
        assert(join(rebuilt, nl) =~= empty);
        assert(nr =~= empty + nl + empty);
        assert(lines2 =~= seq![empty]);
    }
    assert forall|k: int| 0 <= k < lines2.len() implies (#[trigger] lines2[k]).len() == 0
        || exists|m: int| 0 <= m < rebuilt.len() && #[trigger] rebuilt[m] == lines2[k] by {
        if lines2[k].len() > 0 {
            assert(rebuilt[k] == lines2[k]);
        }
    }
    assert forall|m: int| 0 <= m < rebuilt.len() && (#[trigger] rebuilt[m]).len() > 0 implies exists|k: int|
        0 <= k < lines2.len() && #[trigger] lines2[k] == rebuilt[m] by {
        assert(lines2[m] == rebuilt[m]);
    }
}

/// Reconciliation is settled after one `--fix`. When every task that the
/// list must show has a task id of task-id shape and a name that an entry
/// line can hold,
/// and no rebuilt line ends in a carriage return or holds the end marker,
/// reconciling the rewritten `todo.md` against the same tree drops no
/// entry, adds none and reports nothing, so it leaves the text alone.
pub proof fn lemma_fix_is_settled(tasks: Seq<TaskFileView>, text: Seq<u8>)
    requires
        listable(tasks),
        has_ids(tasks),
        spec_todo_region(text) matches Some((b, e)) ==> lines_stay(
            rebuilt_lines(tasks, text.subrange(b + begin_marker().len(), e)),
        ),
    ensures
        spec_reconcile(tasks, text) matches Some(v) ==> (v.new_text matches Some(t) ==> (
        spec_reconcile(tasks, t) matches Some(w) && w.new_text is None && w.dropped.len() == 0
            && w.added.len() == 0)),
{
    lemma_region_ordered(text);
    lemma_marker_facts();
    if let Some((b, e)) = spec_todo_region(text) {
        let nl = seq![10u8];
        let head = b + begin_marker().len();
        let region = text.subrange(head, e);
        let rebuilt = rebuilt_lines(tasks, region);
        let names = open_names(tasks);
        let sfx = if region.len() > 0 && region.last() == 10 {
            nl
        } else {
            Seq::<u8>::empty()
        };
        let nr = join(rebuilt, nl) + sfx;
        let t = text.subrange(0, head) + nr + end_marker() + text.subrange(
            e + end_marker().len(),
            text.len() as int,
        );
        lemma_rebuilt_lines_live(tasks, region);
        lemma_rebuilt_lists_names(tasks, region);
        lemma_reread(rebuilt, sfx);
        lemma_empty_not_entry();
        lemma_new_region(text, rebuilt, sfx);
        let e2 = head + nr.len();
        assert(t.subrange(head, e2) =~= nr);
        let lines2 = lines_of(nr);
        assert forall|k: int| 0 <= k < lines2.len() implies entry_is_live(
            tasks,
            #[trigger] lines2[k],
        ) by {
            if lines2[k].len() > 0 {
                let m = choose|m: int| 0 <= m < rebuilt.len() && #[trigger] rebuilt[m] == lines2[k];
                assert(entry_is_live(tasks, rebuilt[m]));
            } else {
                assert(lines2[k] =~= Seq::<u8>::empty());
            }
        }
        lemma_scan_all_live(lines2, 0, tasks);
        let sc2 = scan_region(lines2, 0, tasks);
        assert forall|k: int| 0 <= k < names.len() implies sc2.2.contains(#[trigger] names[k])
            || live_named_from(tasks, names[k], 0) is None by {
            if live_named_from(tasks, names[k], 0) is Some {
                assert(name_has_id(tasks, names[k]));
                let m = choose|m: int|
                    0 <= m < rebuilt.len() && #[trigger] entry_name(rebuilt[m]) == Some(names[k]);
                if rebuilt[m].len() == 0 {
                    assert(rebuilt[m] =~= Seq::<u8>::empty());
                }
                let k2 = choose|k2: int| 0 <= k2 < lines2.len() && #[trigger] lines2[k2] == rebuilt[m];
                assert(entry_name(lines2[k2]) is Some);
            }
        }
        lemma_additions_quiet(names, sc2.2, tasks);
    }
}

/// With every name kept, listing no task, or listing a task without an id,
/// reconciliation adds no line.
proof fn lemma_additions_silent(names: Seq<Seq<u8>>, kept: Seq<Seq<u8>>, tasks: Seq<TaskFileView>)
    requires
        forall|k: int|
            0 <= k < names.len() ==> kept.contains(#[trigger] names[k]) || match live_named_from(
                tasks,
                names[k],
                0,
            ) {
                Some(t) => t.id is None,
                None => true,
            },
    ensures
        additions(names, kept, tasks).0.len() == 0,
    decreases names.len(),
{
    if names.len() > 0 {
        let d = names.drop_last();
        assert forall|k: int| 0 <= k < d.len() implies kept.contains(#[trigger] d[k]) || match live_named_from(
            tasks,
            d[k],
            0,
        ) {
            Some(t) => t.id is None,
            None => true,
        } by {
            assert(d[k] == names[k]);
        }
        lemma_additions_silent(d, kept, tasks);
        assert(names.last() == names[names.len() - 1]);
    }
}

/// Joined lines end with the last line.
proof fn lemma_join_last(lines: Seq<Seq<u8>>)
    requires
        lines.len() > 0,
    ensures
        join(lines, seq![10u8]).len() >= lines.last().len(),
        lines.last().len() > 0 ==> join(lines, seq![10u8]).last() == lines.last().last(),
{
    if lines.len() == 1 {
        assert(lines.last() == lines[0]);
    }
}

/// Rebuilt lines, joined and read back, join again into the same region:
/// the region a second reconciliation rebuilds when it keeps every line
/// and adds none.
proof fn lemma_rejoin(rebuilt: Seq<Seq<u8>>, sfx: Seq<u8>)
    requires
        forall|m: int| 0 <= m < rebuilt.len() ==> lacks_byte(#[trigger] rebuilt[m], 10) && !ends_in_cr(rebuilt[m]),
        sfx == seq![10u8] || sfx.len() == 0,
    ensures
        ({
            let nl = seq![10u8];
            let nr = join(rebuilt, nl) + sfx;
            join(lines_of(nr), nl) + (if nr.len() > 0 && nr.last() == 10 {
                nl
            } else {
                Seq::<u8>::empty()
            }) == nr
        }),
{
    let nl = seq![10u8];
    let empty = Seq::<u8>::empty();
    let nr = join(rebuilt, nl) + sfx;
    lemma_lines_of_join(rebuilt);
    if sfx.len() > 0 {
        if rebuilt.len() == 0 {
            assert(lacks_byte(empty, 10));
            lemma_lines_of_line_then(empty, empty);
            lemma_lines_of_single(empty);
            assert(nr =~= empty + nl + empty);
            assert(lines_of(nr) =~= seq![empty]);
            assert(join(seq![empty], nl) == empty);
            assert(empty + nl =~= nr);
        } else {
            assert(lines_of(nr) == rebuilt);
            assert(nr.last() == 10);
        }
    } else {
        assert(nr =~= join(rebuilt, nl));
        if rebuilt.len() > 0 && rebuilt.last().len() == 0 {
            if rebuilt.len() == 1 {
                assert(join(rebuilt, nl) == rebuilt[0]);
                assert(rebuilt.drop_last() =~= Seq::<Seq<u8>>::empty());
            } else {
                let d = rebuilt.drop_last();
                assert(join(rebuilt, nl) == join(d, nl) + nl + rebuilt.last());
                assert(rebuilt.last() =~= empty);
                assert(join(rebuilt, nl) =~= join(d, nl) + nl);
            }
        } else if rebuilt.len() > 0 {
            lemma_join_last(rebuilt);
            assert(rebuilt.last()[rebuilt.last().len() - 1] != 10);
        }
    }
}

/// A second `--fix` leaves `todo.md` as the first one wrote it. When every
/// task with an id that the list must show has an id of task-id shape and
/// a name that an entry line can hold, and no rebuilt line ends in a
/// carriage return or holds the end marker, reconciling the rewritten text
/// against the same tree drops no entry and writes, if anything, that same
/// text back: tasks without an id are reported again, as each run reports
/// them, and nothing else changes.
pub proof fn lemma_fix_leaves_text(tasks: Seq<TaskFileView>, text: Seq<u8>)
    requires
        listable(tasks),
        spec_todo_region(text) matches Some((b, e)) ==> lines_stay(
            rebuilt_lines(tasks, text.subrange(b + begin_marker().len(), e)),
        ),
    ensures
        spec_reconcile(tasks, text) matches Some(v) ==> (v.new_text matches Some(t) ==> (
        spec_reconcile(tasks, t) matches Some(w) && w.dropped.len() == 0 && (w.new_text is None
            || w.new_text == Some(t)))),
{
    lemma_region_ordered(text);
    lemma_marker_facts();
    if let Some((b, e)) = spec_todo_region(text) {
        let nl = seq![10u8];
        let head = b + begin_marker().len();
        let region = text.subrange(head, e);
        let rebuilt = rebuilt_lines(tasks, region);
        let names = open_names(tasks);
        let sfx = if region.len() > 0 && region.last() == 10 {
            nl
        } else {
            Seq::<u8>::empty()
        };
        let nr = join(rebuilt, nl) + sfx;
        let tail = text.subrange(e + end_marker().len(), text.len() as int);
        let t = text.subrange(0, head) + nr + end_marker() + tail;
        lemma_rebuilt_lines_live(tasks, region);
        lemma_rebuilt_lists_names(tasks, region);
        lemma_reread(rebuilt, sfx);
        lemma_rejoin(rebuilt, sfx);
        lemma_empty_not_entry();
        lemma_new_region(text, rebuilt, sfx);
        let e2 = head + nr.len();
        assert(t.subrange(head, e2) =~= nr);
        assert(t.subrange(0, head) =~= text.subrange(0, head));
        assert(t.subrange(e2 + end_marker().len(), t.len() as int) =~= tail);
        let lines2 = lines_of(nr);
        assert forall|k: int| 0 <= k < lines2.len() implies entry_is_live(
            tasks,
            #[trigger] lines2[k],
        ) by {
            if lines2[k].len() > 0 {
                let m = choose|m: int| 0 <= m < rebuilt.len() && #[trigger] rebuilt[m] == lines2[k];
                assert(entry_is_live(tasks, rebuilt[m]));
            } else {
                assert(lines2[k] =~= Seq::<u8>::empty());
            }
        }
        lemma_scan_all_live(lines2, 0, tasks);
        let sc2 = scan_region(lines2, 0, tasks);
        assert(sc2.0 =~= lines2);
        assert forall|k: int| 0 <= k < names.len() implies sc2.2.contains(#[trigger] names[k])
            || match live_named_from(tasks, names[k], 0) {
            Some(tk) => tk.id is None,
            None => true,
        } by {
            if let Some(tk) = live_named_from(tasks, names[k], 0) {
                if tk.id is Some {
                    let m = choose|m: int|
                        0 <= m < rebuilt.len() && #[trigger] entry_name(rebuilt[m]) == Some(names[k]);
                    if rebuilt[m].len() == 0 {
                        assert(rebuilt[m] =~= Seq::<u8>::empty());
                    }
                    let k2 = choose|k2: int| 0 <= k2 < lines2.len() && #[trigger] lines2[k2] == rebuilt[m];
                    assert(entry_name(lines2[k2]) is Some);
                }
            }
        }
        lemma_additions_silent(names, sc2.2, tasks);
        let add2 = additions(names, sc2.2, tasks);
        assert(rebuilt_lines(tasks, nr) =~= lines2);
    }
}

} // verus!
