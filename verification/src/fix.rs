//! Reconciling `todo.md`'s generated region with the tree: entry blocks of
//! tasks that are done or gone are dropped, open tasks with an id that are
//! not listed get a bare entry at the end of the region, and everything
//! outside the entry blocks is kept as written.

use vstd::prelude::*;
use vstd::string::StringSliceAdditionalSpecFns;
use crate::bytes::{append_bytes, bytes_eq, lit, slice_to_vec};
use crate::findings::{join, join_exec};
use crate::frontmatter::{concat3, contains_bytes};
use crate::refs::{lemma_seqs_view_push, seqs_view};
use crate::sorted::{set_insert, set_insert_exec};
use crate::taskfile::{TaskFile, TaskFileView};
use crate::tasks::{
    begin_marker, end_marker, end_marker_bytes, parse_entry_head, spec_entry_head,
    spec_todo_region, todo_region,
};
use crate::text::{lines_exec, lines_of, occurs_at, occurs_at_exec};
use crate::tree::{basename, basename_exec, tasks_view, Tree};

verus! {

/// A task that the list must show: not in `done/`, open or parked.
pub open spec fn is_live_open(t: TaskFileView) -> bool {
    !t.in_done_dir && (t.status == "open".spec_bytes() || t.status == "parked".spec_bytes())
}

/// The first live open task of `tasks[i..]` whose basename is `name`.
pub open spec fn live_named_from(tasks: Seq<TaskFileView>, name: Seq<u8>, i: int) -> Option<
    TaskFileView,
>
    decreases tasks.len() - i,
{
    if i < 0 || i >= tasks.len() {
        None
    } else if basename(tasks[i].rel) == name && is_live_open(tasks[i]) {
        Some(tasks[i])
    } else {
        live_named_from(tasks, name, i + 1)
    }
}

/// The basenames of the live open tasks, sorted.
pub open spec fn open_names(tasks: Seq<TaskFileView>) -> Seq<Seq<u8>>
    decreases tasks.len(),
{
    if tasks.len() == 0 {
        Seq::empty()
    } else {
        let prev = open_names(tasks.drop_last());
        if is_live_open(tasks.last()) {
            set_insert(prev, basename(tasks.last().rel))
        } else {
            prev
        }
    }
}

/// A header line: `#` in column 0, whatever its level.
pub open spec fn is_header(line: Seq<u8>) -> bool {
    line.len() > 0 && line[0] == 35
}

/// The end of the entry block whose lines after the entry line start at
/// `j`: the next entry or header line, or the end.
pub open spec fn block_end(lines: Seq<Seq<u8>>, j: int) -> int
    decreases lines.len() - j,
{
    if 0 <= j < lines.len() && spec_entry_head(lines[j]) is None && !is_header(lines[j]) {
        block_end(lines, j + 1)
    } else {
        j
    }
}

pub proof fn lemma_block_end(lines: Seq<Seq<u8>>, j: int)
    requires
        0 <= j <= lines.len(),
    ensures
        j <= block_end(lines, j) <= lines.len(),
    decreases lines.len() - j,
{
    if j < lines.len() && spec_entry_head(lines[j]) is None && !is_header(lines[j]) {
        lemma_block_end(lines, j + 1);
    }
}

/// The region's lines from `i` on, rebuilt: the lines kept, the entries
/// dropped (`N. file`), and the names of the entries kept.
pub open spec fn scan_region(lines: Seq<Seq<u8>>, i: int, tasks: Seq<TaskFileView>) -> (
    Seq<Seq<u8>>,
    Seq<Seq<u8>>,
    Seq<Seq<u8>>,
)
    decreases lines.len() - i,
{
    if i < 0 || i >= lines.len() {
        (Seq::empty(), Seq::empty(), Seq::empty())
    } else {
        match spec_entry_head(lines[i]) {
            None => {
                let rest = scan_region(lines, i + 1, tasks);
                (seq![lines[i]] + rest.0, rest.1, rest.2)
            },
            Some((number, file)) => {
                proof {
                    lemma_block_end(lines, i + 1);
                }
                let j = block_end(lines, i + 1);
                let name = basename(file);
                let rest = scan_region(lines, j, tasks);
                if live_named_from(tasks, name, 0) is Some {
                    (lines.subrange(i, j) + rest.0, rest.1, seq![name] + rest.2)
                } else {
                    (rest.0, seq![number + ". ".spec_bytes() + file] + rest.1, rest.2)
                }
            },
        }
    }
}

/// `s` without its leading `# ` prefixes.
pub open spec fn strip_hashes(s: Seq<u8>) -> Seq<u8>
    decreases s.len(),
{
    if s.len() >= 2 && s[0] == 35 && s[1] == 32 {
        strip_hashes(s.subrange(2, s.len() as int))
    } else {
        s
    }
}

/// The first H1 line (`# ...`) of `lines[i..]`.
pub open spec fn first_h1(lines: Seq<Seq<u8>>, i: int) -> Option<Seq<u8>>
    decreases lines.len() - i,
{
    if i < 0 || i >= lines.len() {
        None
    } else if lines[i].len() >= 2 && lines[i][0] == 35 && lines[i][1] == 32 {
        Some(lines[i])
    } else {
        first_h1(lines, i + 1)
    }
}

/// The entry title: the H1 minus its `# ` and `Task N: ` prefixes, or
/// `untitled`.
pub open spec fn title(body: Seq<u8>, id: Seq<u8>) -> Seq<u8> {
    match first_h1(lines_of(body), 0) {
        None => "untitled".spec_bytes(),
        Some(l) => {
            let t = strip_hashes(l);
            let p = "Task ".spec_bytes() + id + ": ".spec_bytes();
            if occurs_at(t, p, 0) {
                t.subrange(p.len() as int, t.len() as int)
            } else {
                t
            }
        },
    }
}

/// The entry line added for a task: `id. [name](name) — title`.
pub open spec fn entry_line(id: Seq<u8>, name: Seq<u8>, title: Seq<u8>) -> Seq<u8> {
    id + ". [".spec_bytes() + name + "](".spec_bytes() + name + ") — ".spec_bytes() + title
}

/// For the open names not kept, the lines appended to the region and the
/// report lines.
pub open spec fn additions(
    names: Seq<Seq<u8>>,
    kept: Seq<Seq<u8>>,
    tasks: Seq<TaskFileView>,
) -> (Seq<Seq<u8>>, Seq<Seq<u8>>)
    decreases names.len(),
{
    if names.len() == 0 {
        (Seq::empty(), Seq::empty())
    } else {
        let prev = additions(names.drop_last(), kept, tasks);
        let name = names.last();
        if kept.contains(name) {
            prev
        } else {
            match live_named_from(tasks, name, 0) {
                None => prev,
                Some(t) => match t.id {
                    Some(id) => (
                        prev.0 + seq![Seq::empty(), entry_line(id, name, title(t.body, id))],
                        prev.1.push(
                            id + ". ".spec_bytes() + name
                                + " (unplaced — move it into a section)".spec_bytes(),
                        ),
                    ),
                    None => (
                        prev.0,
                        prev.1.push(name + " (no id — assign one, then re-run)".spec_bytes()),
                    ),
                },
            }
        }
    }
}

pub struct ReconcileView {
    pub new_text: Option<Seq<u8>>,
    pub dropped: Seq<Seq<u8>>,
    pub added: Seq<Seq<u8>>,
}

/// The reconciled `todo.md`, or `None` when it has no generated region.
/// `new_text` is `None` when the list already matches the tree.
pub open spec fn spec_reconcile(tasks: Seq<TaskFileView>, text: Seq<u8>) -> Option<ReconcileView> {
    match spec_todo_region(text) {
        None => None,
        Some((b, e)) => {
            let narrative = text.subrange(0, b + begin_marker().len());
            let region = text.subrange(b + begin_marker().len(), e);
            let tail = text.subrange(e + end_marker().len(), text.len() as int);
            let scan = scan_region(lines_of(region), 0, tasks);
            let add = additions(open_names(tasks), scan.2, tasks);
            let rebuilt = rebuilt_lines(tasks, region);
            let new_region = join(rebuilt, seq![10u8]) + if region.len() > 0 && region.last()
                == 10 {
                seq![10u8]
            } else {
                Seq::empty()
            };
            Some(
                ReconcileView {
                    new_text: if scan.1.len() == 0 && add.1.len() == 0 {
                        None
                    } else {
                        Some(narrative + new_region + end_marker() + tail)
                    },
                    dropped: scan.1,
                    added: add.1,
                },
            )
        },
    }
}

/// The region's lines as reconciliation rebuilds them: the lines kept, in
/// their order, then the entries added.
pub open spec fn rebuilt_lines(tasks: Seq<TaskFileView>, region: Seq<u8>) -> Seq<Seq<u8>> {
    kept_lines(tasks, region) + added_lines(tasks, region)
}

/// The region's lines that reconciliation keeps: all but the blocks of
/// entries whose task is done or gone.
pub open spec fn kept_lines(tasks: Seq<TaskFileView>, region: Seq<u8>) -> Seq<Seq<u8>> {
    scan_region(lines_of(region), 0, tasks).0
}

/// The entries reconciliation appends for listed-nowhere open tasks.
pub open spec fn added_lines(tasks: Seq<TaskFileView>, region: Seq<u8>) -> Seq<Seq<u8>> {
    additions(open_names(tasks), scan_region(lines_of(region), 0, tasks).2, tasks).0
}

/// The header lines of `lines`, in order.
pub open spec fn headers(lines: Seq<Seq<u8>>) -> Seq<Seq<u8>> {
    lines.filter(|l: Seq<u8>| is_header(l))
}

proof fn lemma_entry_is_not_header(l: Seq<u8>)
    ensures
        spec_entry_head(l) is Some ==> !is_header(l),
{
    if is_header(l) && spec_entry_head(l) is Some {
        assert(crate::text::ws_len_at(l, 0) == 0);
        assert(crate::text::skip_ws(l, 0) == 0);
        let t = crate::text::trim_start(l);
        assert(t =~= l);
        let p = crate::text::find_from(t, ". [".spec_bytes(), 0)->0;
        crate::text::lemma_find_from_bounds(t, ". [".spec_bytes(), 0);
        let number = t.subrange(0, p);
        assert(crate::tasks::task_id_shape(number));
        assert(number[0] == l[0]);
    }
}

proof fn lemma_headers_cons(l: Seq<u8>, rest: Seq<Seq<u8>>)
    ensures
        headers(seq![l] + rest) == (if is_header(l) { seq![l] } else { Seq::empty() }) + headers(rest),
{
    let pred = |x: Seq<u8>| is_header(x);
    Seq::filter_distributes_over_add(seq![l], rest, pred);
    reveal_with_fuel(Seq::filter, 2);
    assert(seq![l].drop_last() =~= Seq::<Seq<u8>>::empty());
}

proof fn lemma_block_has_no_headers(lines: Seq<Seq<u8>>, j: int)
    requires
        0 <= j <= lines.len(),
    ensures
        j <= block_end(lines, j) <= lines.len(),
        headers(lines.subrange(j, block_end(lines, j))) == Seq::<Seq<u8>>::empty(),
    decreases lines.len() - j,
{
    lemma_block_end(lines, j);
    if j < lines.len() && spec_entry_head(lines[j]) is None && !is_header(lines[j]) {
        lemma_block_has_no_headers(lines, j + 1);
        let e = block_end(lines, j);
        assert(lines.subrange(j, e) =~= seq![lines[j]] + lines.subrange(j + 1, e));
        lemma_headers_cons(lines[j], lines.subrange(j + 1, e));
    } else {
        assert(lines.subrange(j, j) =~= Seq::<Seq<u8>>::empty());
        assert(headers(Seq::<Seq<u8>>::empty()) =~= Seq::<Seq<u8>>::empty());
    }
}

proof fn lemma_scan_keeps_headers(lines: Seq<Seq<u8>>, i: int, tasks: Seq<TaskFileView>)
    requires
        0 <= i <= lines.len(),
    ensures
        headers(scan_region(lines, i, tasks).0) == headers(lines.subrange(i, lines.len() as int)),
    decreases lines.len() - i,
{
    let n = lines.len() as int;
    if i == n {
        assert(lines.subrange(i, n) =~= Seq::<Seq<u8>>::empty());
        assert(scan_region(lines, i, tasks).0 =~= Seq::<Seq<u8>>::empty());
    } else {
        assert(lines.subrange(i, n) =~= seq![lines[i]] + lines.subrange(i + 1, n));
        lemma_headers_cons(lines[i], lines.subrange(i + 1, n));
        match spec_entry_head(lines[i]) {
            None => {
                lemma_scan_keeps_headers(lines, i + 1, tasks);
                lemma_headers_cons(lines[i], scan_region(lines, i + 1, tasks).0);
            },
            Some((number, file)) => {
                lemma_entry_is_not_header(lines[i]);
                lemma_block_has_no_headers(lines, i + 1);
                let j = block_end(lines, i + 1);
                lemma_scan_keeps_headers(lines, j, tasks);
                let pred = |x: Seq<u8>| is_header(x);
                assert(lines.subrange(i + 1, n) =~= lines.subrange(i + 1, j) + lines.subrange(j, n));
                Seq::filter_distributes_over_add(lines.subrange(i + 1, j), lines.subrange(j, n), pred);
                assert(lines.subrange(i, j) =~= seq![lines[i]] + lines.subrange(i + 1, j));
                lemma_headers_cons(lines[i], lines.subrange(i + 1, j));
                Seq::filter_distributes_over_add(
                    lines.subrange(i, j),
                    scan_region(lines, j, tasks).0,
                    pred,
                );
                assert(Seq::<Seq<u8>>::empty() + headers(lines.subrange(j, n)) =~= headers(
                    lines.subrange(j, n),
                ));
            },
        }
    }
}

/// `--fix` writes only between the generated-region markers: the new
/// `todo.md` starts with the old one up to and including the begin marker
/// (the narrative above it) and ends with the old one from the end marker
/// on; inside the region the rebuilt lines are the kept lines, which carry
/// every section header of the old region in its order, then the added
/// entries.
pub proof fn lemma_fix_writes_only_the_region(tasks: Seq<TaskFileView>, text: Seq<u8>)
    ensures
        spec_reconcile(tasks, text) matches Some(v) ==> v.new_text matches Some(t) ==> {
            let (b, e) = spec_todo_region(text)->0;
            let head = b + begin_marker().len();
            let region = text.subrange(head, e);
            &&& t.subrange(0, head) == text.subrange(0, head)
            &&& t.subrange(t.len() - (text.len() - e), t.len() as int) == text.subrange(
                e,
                text.len() as int,
            )
            &&& t.subrange(head, t.len() - (text.len() - e)) == join(
                rebuilt_lines(tasks, region),
                seq![10u8],
            ) + if region.len() > 0 && region.last() == 10 {
                seq![10u8]
            } else {
                Seq::empty()
            }
            &&& headers(kept_lines(tasks, region)) == headers(lines_of(region))
        },
{
    crate::tasks::lemma_region_ordered(text);
    if let Some((b, e)) = spec_todo_region(text) {
        let head = b + begin_marker().len();
        let narrative = text.subrange(0, head);
        let region = text.subrange(head, e);
        let tail = text.subrange(e + end_marker().len(), text.len() as int);
        let new_region = join(rebuilt_lines(tasks, region), seq![10u8]) + if region.len() > 0
            && region.last() == 10 {
            seq![10u8]
        } else {
            Seq::empty()
        };
        let t = narrative + new_region + end_marker() + tail;
        assert(t.subrange(0, head) =~= narrative);
        assert(text.subrange(e, text.len() as int) =~= end_marker() + tail) by {
            crate::text::lemma_find_from_bounds(text, end_marker(), 0);
        }
        assert(t.subrange(t.len() - (text.len() - e), t.len() as int) =~= end_marker() + tail);
        assert(t.subrange(head, t.len() - (text.len() - e)) =~= new_region);
        let lines = lines_of(region);
        lemma_scan_keeps_headers(lines, 0, tasks);
        assert(lines.subrange(0, lines.len() as int) =~= lines);
    }
}

/// The outcome of a reconciliation.
pub struct Reconciled {
    /// The new `todo.md`, or `None` when the list already matches the tree.
    pub new_text: Option<Vec<u8>>,
    /// `N. file` for each entry dropped.
    pub dropped: Vec<Vec<u8>>,
    /// A line for each task added, or not added for want of an id.
    pub added: Vec<Vec<u8>>,
}

impl View for Reconciled {
    type V = ReconcileView;

    open spec fn view(&self) -> ReconcileView {
        ReconcileView {
            new_text: match self.new_text {
                Some(t) => Some(t@),
                None => None,
            },
            dropped: seqs_view(self.dropped@),
            added: seqs_view(self.added@),
        }
    }
}

/// Why `todo.md` cannot be reconciled.
#[derive(PartialEq, Eq, Structural, Debug, Clone, Copy)]
pub enum FixError {
    /// The generated-region markers are missing.
    NoMarkers,
}

impl FixError {
    pub fn message(&self) -> (r: Vec<u8>)
        ensures
            r@ == "todo.md carries no generated-region markers (add `<!-- xtask:tasks begin -->` / `<!-- xtask:tasks end -->`)".spec_bytes(),
    {
        lit("todo.md carries no generated-region markers (add `<!-- xtask:tasks begin -->` / `<!-- xtask:tasks end -->`)")
    }
}

fn copy(s: &Vec<u8>) -> (r: Vec<u8>)
    ensures
        r@ == s@,
{
    let r = slice_to_vec(s.as_slice(), 0, s.len());
    assert(r@ =~= s@);
    r
}

fn live_named_exec(tasks: &Vec<TaskFile>, name: &[u8]) -> (r: Option<usize>)
    ensures
        match live_named_from(tasks_view(tasks@), name@, 0) {
            Some(t) => r matches Some(i) && i < tasks@.len() && tasks@[i as int]@ == t,
            None => r is None,
        },
{
    let ghost tv = tasks_view(tasks@);
    let mut i: usize = 0;
    while i < tasks.len()
        invariant
            i <= tasks@.len(),
            tv == tasks_view(tasks@),
            live_named_from(tv, name@, i as int) == live_named_from(tv, name@, 0),
        decreases tasks@.len() - i,
    {
        let t = &tasks[i];
        let b = basename_exec(t.rel.as_slice());
        let live = !t.in_done_dir && (bytes_eq(t.status.as_slice(), lit("open").as_slice())
            || bytes_eq(t.status.as_slice(), lit("parked").as_slice()));
        if bytes_eq(b.as_slice(), name) && live {
            return Some(i);
        }
        i = i + 1;
    }
    None
}

fn open_names_exec(tasks: &Vec<TaskFile>) -> (r: Vec<Vec<u8>>)
    ensures
        seqs_view(r@) == open_names(tasks_view(tasks@)),
{
    let ghost tv = tasks_view(tasks@);
    let mut out: Vec<Vec<u8>> = Vec::new();
    let mut i: usize = 0;
    assert(tv.subrange(0, 0) =~= Seq::<TaskFileView>::empty());
    assert(seqs_view(out@) =~= Seq::<Seq<u8>>::empty());
    while i < tasks.len()
        invariant
            i <= tasks@.len(),
            tv == tasks_view(tasks@),
            seqs_view(out@) == open_names(tv.subrange(0, i as int)),
        decreases tasks@.len() - i,
    {
        proof {
            assert(tv.subrange(0, i + 1).drop_last() =~= tv.subrange(0, i as int));
            assert(tv.subrange(0, i + 1).last() == tasks@[i as int]@);
        }
        let t = &tasks[i];
        let live = !t.in_done_dir && (bytes_eq(t.status.as_slice(), lit("open").as_slice())
            || bytes_eq(t.status.as_slice(), lit("parked").as_slice()));
        if live {
            set_insert_exec(&mut out, basename_exec(t.rel.as_slice()));
        }
        i = i + 1;
    }
    assert(tv.subrange(0, tv.len() as int) =~= tv);
    out
}

fn strip_hashes_exec(s: &[u8]) -> (r: Vec<u8>)
    ensures
        r@ == strip_hashes(s@),
{
    let mut rest = slice_to_vec(s, 0, s.len());
    assert(rest@ =~= s@);
    loop
        invariant
            strip_hashes(rest@) == strip_hashes(s@),
        decreases rest@.len(),
    {
        let n = rest.len();
        if n >= 2 && rest[0] == 35 && rest[1] == 32 {
            rest = slice_to_vec(rest.as_slice(), 2, n);
        } else {
            return rest;
        }
    }
}

fn title_exec(body: &[u8], id: &[u8]) -> (r: Vec<u8>)
    ensures
        r@ == title(body@, id@),
{
    let ls = lines_exec(body);
    let ghost lv = lines_of(body@);
    let mut i: usize = 0;
    while i < ls.len()
        invariant
            i <= ls@.len(),
            ls@.len() == lv.len(),
            lv == lines_of(body@),
            forall|m: int| 0 <= m < ls@.len() ==> (#[trigger] ls@[m])@ == lv[m],
            first_h1(lv, i as int) == first_h1(lv, 0),
        decreases ls@.len() - i,
    {
        let l = &ls[i];
        if l.len() >= 2 && l[0] == 35 && l[1] == 32 {
            let t = strip_hashes_exec(l.as_slice());
            let p = concat3(lit("Task ").as_slice(), id, lit(": ").as_slice());
            if occurs_at_exec(t.as_slice(), p.as_slice(), 0) {
                return slice_to_vec(t.as_slice(), p.len(), t.len());
            } else {
                return t;
            }
        }
        i = i + 1;
    }
    lit("untitled")
}

fn push_line(v: &mut Vec<Vec<u8>>, x: Vec<u8>)
    ensures
        seqs_view(final(v)@) == seqs_view(old(v)@).push(x@),
{
    proof {
        lemma_seqs_view_push(v@, x);
    }
    v.push(x);
}

/// Reconcile `todo.md`'s text with the tree: entry blocks whose task is done
/// or gone are dropped, open tasks with an id that are not listed get a
/// bare entry appended at the end of the region, and the narrative above
/// the begin marker, the section intros, per-entry notes and everything
/// below the end marker are kept byte for byte.
pub fn reconcile(tree: &Tree, text: &[u8]) -> (r: Result<Reconciled, FixError>)
    ensures
        match spec_reconcile(tree@.tasks, text@) {
            None => r == Err::<Reconciled, FixError>(FixError::NoMarkers),
            Some(v) => r matches Ok(rec) && rec@ == v,
        },
{
    let ghost tv = tree@.tasks;
    let tl = text.len();
    let (b, e) = match todo_region(text) {
        None => return Err(FixError::NoMarkers),
        Some(p) => p,
    };
    proof {
        crate::tasks::lemma_marker_facts();
    }
    let bm: usize = 26;
    let em: usize = 24;
    let narrative = slice_to_vec(text, 0, b + bm);
    let region = slice_to_vec(text, b + bm, e);
    let tail = slice_to_vec(text, e + em, tl);
    let lines = lines_exec(region.as_slice());
    let ghost lv = lines_of(region@);
    let mut rebuilt: Vec<Vec<u8>> = Vec::new();
    let mut dropped: Vec<Vec<u8>> = Vec::new();
    let mut kept: Vec<Vec<u8>> = Vec::new();
    let ghost full = scan_region(lv, 0, tv);
    let mut i: usize = 0;
    assert(seqs_view(rebuilt@) + full.0 =~= full.0);
    assert(seqs_view(dropped@) + full.1 =~= full.1);
    assert(seqs_view(kept@) + full.2 =~= full.2);
    while i < lines.len()
        invariant
            i <= lines@.len(),
            lines@.len() == lv.len(),
            forall|m: int| 0 <= m < lines@.len() ==> (#[trigger] lines@[m])@ == lv[m],
            tv == tree@.tasks,
            full == scan_region(lv, 0, tv),
            seqs_view(rebuilt@) + scan_region(lv, i as int, tv).0 == full.0,
            seqs_view(dropped@) + scan_region(lv, i as int, tv).1 == full.1,
            seqs_view(kept@) + scan_region(lv, i as int, tv).2 == full.2,
        decreases lines@.len() - i,
    {
        let ghost r0 = seqs_view(rebuilt@);
        let ghost d0 = seqs_view(dropped@);
        let ghost k0 = seqs_view(kept@);
        match parse_entry_head(lines[i].as_slice()) {
            None => {
                let ghost rest = scan_region(lv, i + 1, tv);
                push_line(&mut rebuilt, copy(&lines[i]));
                assert(r0.push(lv[i as int]) + rest.0 =~= r0 + (seq![lv[i as int]] + rest.0));
                i = i + 1;
            },
            Some((number, file)) => {
                proof {
                    lemma_block_end(lv, i + 1);
                }
                let mut j = i + 1;
                while j < lines.len() && parse_entry_head(lines[j].as_slice()).is_none() && !(
                lines[j].len() > 0 && lines[j][0] == 35)
                    invariant
                        i + 1 <= j <= lines@.len(),
                        lines@.len() == lv.len(),
                        forall|m: int| 0 <= m < lines@.len() ==> (#[trigger] lines@[m])@ == lv[m],
                        block_end(lv, j as int) == block_end(lv, i + 1),
                    decreases lines@.len() - j,
                {
                    j = j + 1;
                }
                let name = basename_exec(file.as_slice());
                let ghost rest = scan_region(lv, j as int, tv);
                if live_named_exec(&tree.tasks, name.as_slice()).is_some() {
                    let mut k = i;
                    while k < j
                        invariant
                            i <= k <= j <= lines@.len(),
                            lines@.len() == lv.len(),
                            forall|m: int| 0 <= m < lines@.len() ==> (#[trigger] lines@[m])@ == lv[m],
                            seqs_view(rebuilt@) == r0 + lv.subrange(i as int, k as int),
                        decreases j - k,
                    {
                        push_line(&mut rebuilt, copy(&lines[k]));
                        assert(r0 + lv.subrange(i as int, k + 1) =~= (r0 + lv.subrange(i as int, k as int)).push(lv[k as int]));
                        k = k + 1;
                    }
                    let ghost nv = name@;
                    push_line(&mut kept, name);
                    assert(r0 + lv.subrange(i as int, j as int) + rest.0 =~= r0 + (lv.subrange(i as int, j as int) + rest.0));
                    assert(k0.push(nv) + rest.2 =~= k0 + (seq![nv] + rest.2));
                } else {
                    let mut d = concat3(number.as_slice(), lit(". ").as_slice(), file.as_slice());
                    let ghost dv = d@;
                    push_line(&mut dropped, d);
                    assert(d0.push(dv) + rest.1 =~= d0 + (seq![dv] + rest.1));
                }
                i = j;
            },
        }
    }
    assert(seqs_view(rebuilt@) + Seq::<Seq<u8>>::empty() =~= seqs_view(rebuilt@));
    assert(seqs_view(dropped@) + Seq::<Seq<u8>>::empty() =~= seqs_view(dropped@));
    assert(seqs_view(kept@) + Seq::<Seq<u8>>::empty() =~= seqs_view(kept@));
    let open = open_names_exec(&tree.tasks);
    let ghost ov = open_names(tv);
    let ghost kv = seqs_view(kept@);
    let ghost base = seqs_view(rebuilt@);
    let mut added: Vec<Vec<u8>> = Vec::new();
    let mut n: usize = 0;
    assert(ov.subrange(0, 0) =~= Seq::<Seq<u8>>::empty());
    assert(base + Seq::<Seq<u8>>::empty() =~= base);
    assert(seqs_view(added@) =~= Seq::<Seq<u8>>::empty());
    while n < open.len()
        invariant
            n <= open@.len(),
            seqs_view(open@) == ov,
            kv == seqs_view(kept@),
            tv == tree@.tasks,
            seqs_view(rebuilt@) == base + additions(ov.subrange(0, n as int), kv, tv).0,
            seqs_view(added@) == additions(ov.subrange(0, n as int), kv, tv).1,
        decreases open@.len() - n,
    {
        proof {
            assert(ov.subrange(0, n + 1).drop_last() =~= ov.subrange(0, n as int));
            assert(ov.subrange(0, n + 1).last() == open@[n as int]@);
        }
        let ghost prev = additions(ov.subrange(0, n as int), kv, tv);
        let name = &open[n];
        if !contains_bytes(&kept, name.as_slice()) {
            match live_named_exec(&tree.tasks, name.as_slice()) {
                None => {},
                Some(k) => {
                    let t = &tree.tasks[k];
                    match &t.id {
                        Some(id) => {
                            let mut entry = concat3(id.as_slice(), lit(". [").as_slice(), name.as_slice());
                            append_bytes(&mut entry, lit("](").as_slice());
                            append_bytes(&mut entry, name.as_slice());
                            append_bytes(&mut entry, lit(") — ").as_slice());
                            append_bytes(&mut entry, title_exec(t.body.as_slice(), id.as_slice()).as_slice());
                            let ghost ev = entry@;
                            push_line(&mut rebuilt, Vec::new());
                            push_line(&mut rebuilt, entry);
                            let mut note = concat3(id.as_slice(), lit(". ").as_slice(), name.as_slice());
                            append_bytes(&mut note, lit(" (unplaced — move it into a section)").as_slice());
                            push_line(&mut added, note);
                            assert(base + (prev.0 + seq![Seq::<u8>::empty(), ev]) =~= (base + prev.0).push(
                                Seq::<u8>::empty(),
                            ).push(ev));
                        },
                        None => {
                            let note = concat3(name.as_slice(), lit(" (no id — assign one, then re-run)").as_slice(), &[]);
                            push_line(&mut added, note);
                        },
                    }
                },
            }
        }
        n = n + 1;
    }
    assert(ov.subrange(0, ov.len() as int) =~= ov);
    proof {
        assert(spec_todo_region(text@) == Some((b as int, e as int)));
        assert(full.2 == kv);
        assert(seqs_view(rebuilt@) == full.0 + additions(ov, kv, tv).0);
        assert(seqs_view(dropped@) == full.1);
    }
    if dropped.len() == 0 && added.len() == 0 {
        return Ok(Reconciled { new_text: None, dropped, added });
    }
    let nl: [u8; 1] = [10];
    let mut out = narrative;
    let joined = join_exec(&rebuilt, nl.as_slice());
    append_bytes(&mut out, joined.as_slice());
    if region.len() > 0 && region[region.len() - 1] == 10 {
        append_bytes(&mut out, nl.as_slice());
    } else {
        append_bytes(&mut out, &[]);
    }
    append_bytes(&mut out, end_marker_bytes().as_slice());
    append_bytes(&mut out, tail.as_slice());
    proof {
        assert(nl@ =~= seq![10u8]);
        let rv = spec_reconcile(tv, text@)->0;
        assert(out@ =~= narrative@ + join(seqs_view(rebuilt@), seq![10u8]) + (if region@.len() > 0
            && region@.last() == 10 {
            seq![10u8]
        } else {
            Seq::<u8>::empty()
        }) + end_marker() + tail@);
        assert(rv.new_text == Some(out@));
    }
    Ok(Reconciled { new_text: Some(out), dropped, added })
}

} // verus!
