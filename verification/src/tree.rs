//! The `tasks/` tree as read: its task files, the ids they claim, the ids
//! that references may name, and `todo.md`'s list; and the per-file and
//! index checks over it.

use vstd::prelude::*;
use vstd::string::StringSliceAdditionalSpecFns;
use crate::bytes::{append_bytes, bytes_eq, lit, slice_to_vec};
use crate::findings::{
    decimal, decimal_exec, findings_view, push_finding, Finding, FindingView,
};
use crate::frontmatter::{concat3, contains_bytes};
use crate::refs::{extract_refs, lemma_extract_refs_lines, refs_view, seqs_view, spec_extract_refs};
use crate::sorted::{
    key_pos, keys_of, lemma_pos_from, lemma_set_insert, pos_from, set_insert, set_insert_exec,
    strictly_sorted,
};
use crate::taskfile::{spec_task_from_text, TaskFile, TaskFileView};
use crate::tasks::{
    parse_todo_list, recover_commit_from_status_line, spec_recover_commit, spec_todo_list,
    spec_todo_region, todo_region, ListEntry,
};
use crate::text::{index_of_byte, index_of_byte_exec, lemma_find_from_bounds};

verus! {

pub struct TreeView {
    pub tasks: Seq<TaskFileView>,
    pub id_claims: Seq<(Seq<u8>, Seq<Seq<u8>>)>,
    pub known_ids: Seq<Seq<u8>>,
    pub listed: Seq<(Seq<u8>, Seq<u8>, u32)>,
    pub todo_marked: bool,
}

/// The tree as read.
pub struct Tree {
    pub tasks: Vec<TaskFile>,
    /// Each front matter id with the files that claim it, sorted by id;
    /// each file list sorted.
    pub id_claims: Vec<(Vec<u8>, Vec<Vec<u8>>)>,
    /// Every resolvable id, sorted: front matter ids and `todo.md` list
    /// numbers.
    pub known_ids: Vec<Vec<u8>>,
    /// `todo.md`'s list entries: number, linked file, 1-based file line.
    pub listed: Vec<ListEntry>,
    /// Whether `todo.md` carries the generated-region markers.
    pub todo_marked: bool,
}

pub open spec fn tasks_view(v: Seq<TaskFile>) -> Seq<TaskFileView> {
    v.map_values(|t: TaskFile| t@)
}

pub open spec fn claims_view(v: Seq<(Vec<u8>, Vec<Vec<u8>>)>) -> Seq<(Seq<u8>, Seq<Seq<u8>>)> {
    v.map_values(|e: (Vec<u8>, Vec<Vec<u8>>)| (e.0@, seqs_view(e.1@)))
}

pub open spec fn listed_view(v: Seq<ListEntry>) -> Seq<(Seq<u8>, Seq<u8>, u32)> {
    v.map_values(|e: ListEntry| (e.0@, e.1@, e.2))
}

impl View for Tree {
    type V = TreeView;

    open spec fn view(&self) -> TreeView {
        TreeView {
            tasks: tasks_view(self.tasks@),
            id_claims: claims_view(self.id_claims@),
            known_ids: seqs_view(self.known_ids@),
            listed: listed_view(self.listed@),
            todo_marked: self.todo_marked,
        }
    }
}

/// The keys of a claims map.
pub open spec fn claim_keys(m: Seq<(Seq<u8>, Seq<Seq<u8>>)>) -> Seq<Seq<u8>> {
    m.map_values(|e: (Seq<u8>, Seq<Seq<u8>>)| e.0)
}

/// `m` with file `f` added to the claimants of id `k`.
pub open spec fn claim_insert(m: Seq<(Seq<u8>, Seq<Seq<u8>>)>, k: Seq<u8>, f: Seq<u8>) -> Seq<
    (Seq<u8>, Seq<Seq<u8>>),
> {
    let p = pos_from(claim_keys(m), k, 0);
    if p < m.len() && m[p].0 == k {
        m.update(p, (k, set_insert(m[p].1, f)))
    } else {
        m.insert(p, (k, seq![f]))
    }
}

/// Each front matter id with the files claiming it.
pub open spec fn claims_of(tasks: Seq<TaskFileView>) -> Seq<(Seq<u8>, Seq<Seq<u8>>)>
    decreases tasks.len(),
{
    if tasks.len() == 0 {
        Seq::empty()
    } else {
        let prev = claims_of(tasks.drop_last());
        match tasks.last().id {
            Some(id) => claim_insert(prev, id, tasks.last().rel),
            None => prev,
        }
    }
}

/// The front matter ids, as a sorted set.
pub open spec fn ids_of(tasks: Seq<TaskFileView>) -> Seq<Seq<u8>>
    decreases tasks.len(),
{
    if tasks.len() == 0 {
        Seq::empty()
    } else {
        let prev = ids_of(tasks.drop_last());
        match tasks.last().id {
            Some(id) => set_insert(prev, id),
            None => prev,
        }
    }
}

/// `known` with the list numbers added.
pub open spec fn with_numbers(known: Seq<Seq<u8>>, listed: Seq<(Seq<u8>, Seq<u8>, u32)>) -> Seq<
    Seq<u8>,
>
    decreases listed.len(),
{
    if listed.len() == 0 {
        known
    } else {
        set_insert(with_numbers(known, listed.drop_last()), listed.last().0)
    }
}

/// The tree made of the task files read and the text of `todo.md` (empty
/// when it could not be read).
pub open spec fn spec_build(tasks: Seq<TaskFileView>, todo_text: Seq<u8>) -> TreeView {
    let listed = spec_todo_list(todo_text);
    TreeView {
        tasks,
        id_claims: claims_of(tasks),
        known_ids: with_numbers(ids_of(tasks), listed),
        listed,
        todo_marked: spec_todo_region(todo_text) is Some,
    }
}

/// Some task file claims `x` as its front matter id.
pub open spec fn claims_id(tasks: Seq<TaskFileView>, x: Seq<u8>) -> bool {
    exists|i: int| 0 <= i < tasks.len() && #[trigger] tasks[i].id == Some(x)
}

/// Some entry of the list carries the number `x`.
pub open spec fn lists_number(listed: Seq<(Seq<u8>, Seq<u8>, u32)>, x: Seq<u8>) -> bool {
    exists|j: int| 0 <= j < listed.len() && #[trigger] listed[j].0 == x
}

proof fn lemma_ids_of(tasks: Seq<TaskFileView>)
    ensures
        strictly_sorted(ids_of(tasks)),
        forall|x: Seq<u8>| #[trigger] ids_of(tasks).contains(x) <==> claims_id(tasks, x),
    decreases tasks.len(),
{
    if tasks.len() > 0 {
        let prev = tasks.drop_last();
        lemma_ids_of(prev);
        if let Some(id) = tasks.last().id {
            lemma_set_insert(ids_of(prev), id);
        }
        assert forall|x: Seq<u8>| claims_id(tasks, x) <==> claims_id(prev, x) || tasks.last().id == Some(x) by {
            if claims_id(tasks, x) {
                let i = choose|i: int| 0 <= i < tasks.len() && #[trigger] tasks[i].id == Some(x);
                if i < tasks.len() - 1 {
                    assert(prev[i] == tasks[i]);
                }
            }
            if claims_id(prev, x) {
                let i = choose|i: int| 0 <= i < prev.len() && #[trigger] prev[i].id == Some(x);
                assert(tasks[i] == prev[i]);
            }
            if tasks.last().id == Some(x) {
                assert(tasks[tasks.len() - 1].id == Some(x));
            }
        }
    } else {
        assert(ids_of(tasks) =~= Seq::<Seq<u8>>::empty());
    }
}

proof fn lemma_with_numbers(known: Seq<Seq<u8>>, listed: Seq<(Seq<u8>, Seq<u8>, u32)>)
    requires
        strictly_sorted(known),
    ensures
        strictly_sorted(with_numbers(known, listed)),
        forall|x: Seq<u8>| #[trigger] with_numbers(known, listed).contains(x) <==> known.contains(x)
            || lists_number(listed, x),
    decreases listed.len(),
{
    if listed.len() > 0 {
        let prev = listed.drop_last();
        lemma_with_numbers(known, prev);
        lemma_set_insert(with_numbers(known, prev), listed.last().0);
        assert forall|x: Seq<u8>| lists_number(listed, x) <==> lists_number(prev, x) || listed.last().0 == x by {
            if lists_number(listed, x) {
                let j = choose|j: int| 0 <= j < listed.len() && #[trigger] listed[j].0 == x;
                if j < listed.len() - 1 {
                    assert(prev[j] == listed[j]);
                }
            }
            if lists_number(prev, x) {
                let j = choose|j: int| 0 <= j < prev.len() && #[trigger] prev[j].0 == x;
                assert(listed[j] == prev[j]);
            }
            if listed.last().0 == x {
                assert(listed[listed.len() - 1].0 == x);
            }
        }
    }
}

/// The ids a reference may name are exactly every front matter id and
/// every number in `todo.md`'s list, each once, in sorted order.
pub proof fn lemma_known_ids(tasks: Seq<TaskFileView>, todo_text: Seq<u8>)
    ensures
        strictly_sorted(spec_build(tasks, todo_text).known_ids),
        forall|x: Seq<u8>| #[trigger] spec_build(tasks, todo_text).known_ids.contains(x) <==> claims_id(
            tasks,
            x,
        ) || lists_number(spec_todo_list(todo_text), x),
{
    lemma_ids_of(tasks);
    lemma_with_numbers(ids_of(tasks), spec_todo_list(todo_text));
}

/// File `f` is among the claimants of id `k` in the claims map `m`.
pub open spec fn has_claim(m: Seq<(Seq<u8>, Seq<Seq<u8>>)>, k: Seq<u8>, f: Seq<u8>) -> bool {
    exists|p: int| 0 <= p < m.len() && #[trigger] m[p].0 == k && m[p].1.contains(f)
}

/// A claims map is sorted by id, each id once, and each list of files is
/// sorted, each file once.
pub open spec fn claims_wf(m: Seq<(Seq<u8>, Seq<Seq<u8>>)>) -> bool {
    &&& strictly_sorted(claim_keys(m))
    &&& forall|p: int| 0 <= p < m.len() ==> strictly_sorted(#[trigger] m[p].1)
}

proof fn lemma_claim_insert(m: Seq<(Seq<u8>, Seq<Seq<u8>>)>, k: Seq<u8>, f: Seq<u8>)
    requires
        claims_wf(m),
    ensures
        claims_wf(claim_insert(m, k, f)),
        forall|k2: Seq<u8>, f2: Seq<u8>|
            #[trigger] has_claim(claim_insert(m, k, f), k2, f2) <==> has_claim(m, k2, f2) || (k2
                == k && f2 == f),
{
    let keys = claim_keys(m);
    let p = pos_from(keys, k, 0);
    lemma_pos_from(keys, k, 0);
    let n = claim_insert(m, k, f);
    if p < m.len() && m[p].0 == k {
        let l = set_insert(m[p].1, f);
        lemma_set_insert(m[p].1, f);
        assert(n == m.update(p, (k, l)));
        assert(claim_keys(n) =~= keys);
        assert forall|q: int| 0 <= q < n.len() implies strictly_sorted(#[trigger] n[q].1) by {
            if q != p {
                assert(n[q] == m[q]);
            }
        }
        assert forall|k2: Seq<u8>, f2: Seq<u8>|
            #[trigger] has_claim(n, k2, f2) <==> has_claim(m, k2, f2) || (k2 == k && f2 == f) by {
            if has_claim(n, k2, f2) {
                let q = choose|q: int| 0 <= q < n.len() && #[trigger] n[q].0 == k2 && n[q].1.contains(f2);
                if q != p {
                    assert(m[q] == n[q]);
                } else if f2 != f {
                    assert(m[p].1.contains(f2));
                }
            }
            if has_claim(m, k2, f2) {
                let q = choose|q: int| 0 <= q < m.len() && #[trigger] m[q].0 == k2 && m[q].1.contains(f2);
                if q != p {
                    assert(m[q] == n[q]);
                } else {
                    assert(n[p].1.contains(f2));
                }
            }
            if k2 == k && f2 == f {
                assert(n[p].1.contains(f));
                assert(n[p].0 == k2);
            }
        }
    } else {
        lemma_set_insert(keys, k);
        assert(n == m.insert(p, (k, seq![f])));
        assert(claim_keys(n) =~= keys.insert(p, k));
        assert(set_insert(keys, k) == keys.insert(p, k));
        assert forall|q: int| 0 <= q < n.len() implies strictly_sorted(#[trigger] n[q].1) by {
            if q < p {
                assert(n[q] == m[q]);
            } else if q > p {
                assert(n[q] == m[q - 1]);
            }
        }
        assert forall|k2: Seq<u8>, f2: Seq<u8>|
            #[trigger] has_claim(n, k2, f2) <==> has_claim(m, k2, f2) || (k2 == k && f2 == f) by {
            if has_claim(n, k2, f2) {
                let q = choose|q: int| 0 <= q < n.len() && #[trigger] n[q].0 == k2 && n[q].1.contains(f2);
                if q < p {
                    assert(m[q] == n[q]);
                } else if q > p {
                    assert(m[q - 1] == n[q]);
                } else {
                    assert(n[p].1 == seq![f]);
                    assert(n[p].1[0] == f);
                }
            }
            if has_claim(m, k2, f2) {
                let q = choose|q: int| 0 <= q < m.len() && #[trigger] m[q].0 == k2 && m[q].1.contains(f2);
                if q < p {
                    assert(m[q] == n[q]);
                } else {
                    assert(m[q] == n[q + 1]);
                }
            }
            if k2 == k && f2 == f {
                assert(n[p].1[0] == f);
                assert(n[p].1.contains(f));
                assert(n[p].0 == k2);
            }
        }
    }
}

/// The claims map is sorted by id with each id once and its files sorted
/// and each once, and a file is among an id's claimants exactly when that
/// file's front matter claims the id.
pub proof fn lemma_claims_of(tasks: Seq<TaskFileView>)
    ensures
        claims_wf(claims_of(tasks)),
        forall|k: Seq<u8>, f: Seq<u8>|
            #[trigger] has_claim(claims_of(tasks), k, f) <==> exists|i: int|
                0 <= i < tasks.len() && #[trigger] tasks[i].id == Some(k) && tasks[i].rel == f,
    decreases tasks.len(),
{
    if tasks.len() == 0 {
        assert(claim_keys(claims_of(tasks)) =~= Seq::<Seq<u8>>::empty());
    } else {
        let prev = tasks.drop_last();
        lemma_claims_of(prev);
        let t = tasks.last();
        if let Some(id) = t.id {
            lemma_claim_insert(claims_of(prev), id, t.rel);
        }
        assert forall|k: Seq<u8>, f: Seq<u8>|
            #[trigger] has_claim(claims_of(tasks), k, f) <==> exists|i: int|
                0 <= i < tasks.len() && #[trigger] tasks[i].id == Some(k) && tasks[i].rel == f by {
            if exists|i: int| 0 <= i < tasks.len() && #[trigger] tasks[i].id == Some(k) && tasks[i].rel == f {
                let i = choose|i: int| 0 <= i < tasks.len() && #[trigger] tasks[i].id == Some(k) && tasks[i].rel == f;
                if i < tasks.len() - 1 {
                    assert(prev[i] == tasks[i]);
                    assert(has_claim(claims_of(prev), k, f));
                }
            }
            if has_claim(claims_of(prev), k, f) {
                let i = choose|i: int| 0 <= i < prev.len() && #[trigger] prev[i].id == Some(k) && prev[i].rel == f;
                assert(tasks[i] == prev[i]);
            }
            if t.id == Some(k) && t.rel == f {
                assert(tasks[tasks.len() - 1] == t);
            }
        }
    }
}

proof fn lemma_claims_view_keys(m: Seq<(Vec<u8>, Vec<Vec<u8>>)>)
    ensures
        claim_keys(claims_view(m)) == keys_of(m),
{
    assert(claim_keys(claims_view(m)) =~= keys_of(m));
}

fn claim_insert_exec(m: &mut Vec<(Vec<u8>, Vec<Vec<u8>>)>, k: Vec<u8>, f: Vec<u8>)
    ensures
        claims_view(final(m)@) == claim_insert(claims_view(old(m)@), k@, f@),
{
    proof {
        lemma_claims_view_keys(m@);
    }
    let ghost cv = claims_view(m@);
    let p = key_pos(m, k.as_slice());
    if p < m.len() && bytes_eq(m[p].0.as_slice(), k.as_slice()) {
        let (key, mut files) = m.remove(p);
        let ghost fv = f@;
        set_insert_exec(&mut files, f);
        m.insert(p, (key, files));
        assert(claims_view(m@) =~= cv.update(p as int, (k@, set_insert(cv[p as int].1, fv))));
    } else {
        let ghost kv = k@;
        let ghost fv = f@;
        let mut files: Vec<Vec<u8>> = Vec::new();
        files.push(f);
        m.insert(p, (k, files));
        assert(seqs_view(seq![f]) =~= seq![fv]);
        assert(claims_view(m@) =~= cv.insert(p as int, (kv, seq![fv])));
    }
}

impl Tree {
    /// The tree of the task files read and the text of `todo.md` (empty when
    /// it could not be read): the ids each file claims, every resolvable id,
    /// and the list.
    pub fn build(tasks: Vec<TaskFile>, todo_text: &[u8]) -> (r: Tree)
        ensures
            r@ == spec_build(tasks_view(tasks@), todo_text@),
    {
        let ghost tv = tasks_view(tasks@);
        let mut claims: Vec<(Vec<u8>, Vec<Vec<u8>>)> = Vec::new();
        let mut known: Vec<Vec<u8>> = Vec::new();
        let mut i: usize = 0;
        assert(tv.subrange(0, 0) =~= Seq::<TaskFileView>::empty());
        assert(claims_view(claims@) =~= Seq::<(Seq<u8>, Seq<Seq<u8>>)>::empty());
        assert(seqs_view(known@) =~= Seq::<Seq<u8>>::empty());
        while i < tasks.len()
            invariant
                i <= tasks@.len(),
                tv == tasks_view(tasks@),
                claims_view(claims@) == claims_of(tv.subrange(0, i as int)),
                seqs_view(known@) == ids_of(tv.subrange(0, i as int)),
            decreases tasks@.len() - i,
        {
            proof {
                assert(tv.subrange(0, i + 1).drop_last() =~= tv.subrange(0, i as int));
                assert(tv.subrange(0, i + 1).last() == tasks@[i as int]@);
            }
            match &tasks[i].id {
                Some(id) => {
                    let a = slice_to_vec(id.as_slice(), 0, id.len());
                    let b = slice_to_vec(id.as_slice(), 0, id.len());
                    let rel = slice_to_vec(tasks[i].rel.as_slice(), 0, tasks[i].rel.len());
                    assert(a@ =~= id@);
                    assert(b@ =~= id@);
                    assert(rel@ =~= tasks@[i as int].rel@);
                    claim_insert_exec(&mut claims, a, rel);
                    set_insert_exec(&mut known, b);
                },
                None => {},
            }
            i = i + 1;
        }
        assert(tv.subrange(0, tv.len() as int) =~= tv);
        let listed = parse_todo_list(todo_text);
        let ghost lv = spec_todo_list(todo_text@);
        assert(listed_view(listed@) =~= lv);
        let ghost ids = seqs_view(known@);
        let mut j: usize = 0;
        assert(lv.subrange(0, 0) =~= Seq::<(Seq<u8>, Seq<u8>, u32)>::empty());
        while j < listed.len()
            invariant
                j <= listed@.len(),
                lv == listed_view(listed@),
                seqs_view(known@) == with_numbers(ids, lv.subrange(0, j as int)),
            decreases listed@.len() - j,
        {
            proof {
                assert(lv.subrange(0, j + 1).drop_last() =~= lv.subrange(0, j as int));
                assert(lv.subrange(0, j + 1).last() == lv[j as int]);
            }
            let num = slice_to_vec(listed[j].0.as_slice(), 0, listed[j].0.len());
            assert(num@ =~= lv[j as int].0);
            set_insert_exec(&mut known, num);
            j = j + 1;
        }
        assert(lv.subrange(0, lv.len() as int) =~= lv);
        let todo_marked = todo_region(todo_text).is_some();
        Tree { tasks, id_claims: claims, known_ids: known, listed, todo_marked }
    }
}

/// One of the three status words.
pub open spec fn is_status_word(p: Seq<u8>) -> bool {
    p == "open".spec_bytes() || p == "parked".spec_bytes() || p == "done".spec_bytes()
}

/// A `Malformed` finding for each of `details`.
pub open spec fn malformed_findings(rel: Seq<u8>, details: Seq<Seq<u8>>) -> Seq<FindingView> {
    details.map_values(|d: Seq<u8>| FindingView::Malformed { file: rel, detail: d })
}

/// The prose `## Status:` word against the front matter's status: a
/// missing line is the older convention, not a disagreement.
pub open spec fn mismatch_findings(t: TaskFileView) -> Seq<FindingView> {
    match t.prose_status {
        Some(p) => if p != t.status || !is_status_word(p) {
            seq![FindingView::StatusMismatch { file: t.rel, front: t.status, prose: p }]
        } else {
            Seq::empty()
        },
        None => Seq::empty(),
    }
}

/// Done files live in `done/`, and nothing else does.
pub open spec fn placement_findings(t: TaskFileView) -> Seq<FindingView> {
    if t.in_done_dir && t.status != "done".spec_bytes() {
        seq![
            FindingView::Misplaced {
                file: t.rel,
                detail: "status is `".spec_bytes() + t.status + "`, but the file is in done/".spec_bytes(),
            },
        ]
    } else if !t.in_done_dir && t.status == "done".spec_bytes() {
        seq![
            FindingView::Misplaced {
                file: t.rel,
                detail: "status is `done`, but the file is at the top level (move it to done/)".spec_bytes(),
            },
        ]
    } else {
        Seq::empty()
    }
}

/// Body references that name no known id, at their file lines.
pub open spec fn body_ref_findings(
    rel: Seq<u8>,
    header_lines: u32,
    refs: Seq<(u32, Seq<u8>)>,
    known: Seq<Seq<u8>>,
) -> Seq<FindingView>
    decreases refs.len(),
{
    if refs.len() == 0 {
        Seq::empty()
    } else {
        let (line, id) = refs.last();
        body_ref_findings(rel, header_lines, refs.drop_last(), known) + if known.contains(id) {
            Seq::empty()
        } else {
            seq![
                FindingView::UnresolvedRef {
                    file: rel,
                    line: (header_lines + 2 + line) as u32,
                    id,
                },
            ]
        }
    }
}

/// `depends-on` items that name no known id (line 0: the front matter).
pub open spec fn dep_ref_findings(rel: Seq<u8>, deps: Seq<Seq<u8>>, known: Seq<Seq<u8>>) -> Seq<
    FindingView,
>
    decreases deps.len(),
{
    if deps.len() == 0 {
        Seq::empty()
    } else {
        dep_ref_findings(rel, deps.drop_last(), known) + if known.contains(deps.last()) {
            Seq::empty()
        } else {
            seq![FindingView::UnresolvedRef { file: rel, line: 0, id: deps.last() }]
        }
    }
}

/// What `recover_commit_from_status_line` finds.
pub open spec fn recovered(status_line: Option<Seq<u8>>) -> Option<Seq<u8>> {
    match status_line {
        Some(l) => spec_recover_commit(l),
        None => None,
    }
}

/// A done task without `commit:` whose Status line carries a hash.
pub open spec fn commit_findings(t: TaskFileView) -> Seq<FindingView> {
    if t.status == "done".spec_bytes() && t.commit is None {
        match recovered(t.status_line) {
            Some(h) => seq![FindingView::MissingCommit { file: t.rel, candidate: h }],
            None => Seq::empty(),
        }
    } else {
        Seq::empty()
    }
}

/// The findings for one file.  A malformed block gets only its errors;
/// references are checked outside `done/` only.
pub open spec fn task_findings(t: TaskFileView, known: Seq<Seq<u8>>) -> Seq<FindingView> {
    let mal = malformed_findings(t.rel, t.malformed);
    if t.malformed.len() > 0 || t.status.len() == 0 {
        mal
    } else {
        mal + mismatch_findings(t) + placement_findings(t) + (if !t.in_done_dir {
            body_ref_findings(t.rel, t.header_lines, spec_extract_refs(t.body), known)
                + dep_ref_findings(t.rel, t.depends_on, known)
        } else {
            Seq::empty()
        }) + commit_findings(t)
    }
}

/// A malformed front matter block's values are dropped, so that no
/// semantic check acts on them: whatever the text, a task file read with
/// front matter errors carries no id, status, dependencies or commit, and
/// its only findings are its errors, one `malformed` finding each.
pub proof fn lemma_malformed_block_drops_values(
    rel: Seq<u8>,
    in_done_dir: bool,
    text: Seq<u8>,
    known: Seq<Seq<u8>>,
)
    ensures
        ({
            let t = spec_task_from_text(rel, in_done_dir, text);
            t.malformed.len() > 0 ==> {
                &&& t.id is None
                &&& t.status.len() == 0
                &&& t.depends_on.len() == 0
                &&& t.commit is None
                &&& task_findings(t, known) == malformed_findings(rel, t.malformed)
            }
        }),
{
}

/// The per-file findings of all files, in order.
pub open spec fn spec_file_findings(tasks: Seq<TaskFileView>, known: Seq<Seq<u8>>) -> Seq<
    FindingView,
>
    decreases tasks.len(),
{
    if tasks.len() == 0 {
        Seq::empty()
    } else {
        spec_file_findings(tasks.drop_last(), known) + task_findings(tasks.last(), known)
    }
}

/// File line numbers fit a `u32`: the header, its two fences and the body
/// lines together.
pub open spec fn lines_fit(tasks: Seq<TaskFileView>) -> bool {
    forall|i: int|
        0 <= i < tasks.len() ==> (#[trigger] tasks[i]).header_lines + 2 + tasks[i].body.len()
            <= u32::MAX
}

fn copy(s: &Vec<u8>) -> (r: Vec<u8>)
    ensures
        r@ == s@,
{
    let r = slice_to_vec(s.as_slice(), 0, s.len());
    assert(r@ =~= s@);
    r
}

fn push_all(out: &mut Vec<Finding>, add: Vec<Finding>)
    ensures
        findings_view(final(out)@) == findings_view(old(out)@) + findings_view(add@),
{
    let mut add = add;
    let ghost a = add@;
    let ghost o = out@;
    out.append(&mut add);
    assert(findings_view(out@) =~= findings_view(o) + findings_view(a));
}

fn body_refs_exec(t: &TaskFile, known: &Vec<Vec<u8>>, out: &mut Vec<Finding>)
    requires
        t@.header_lines + 2 + t@.body.len() <= u32::MAX,
    ensures
        findings_view(final(out)@) == findings_view(old(out)@) + body_ref_findings(
            t@.rel,
            t@.header_lines,
            spec_extract_refs(t@.body),
            seqs_view(known@),
        ),
{
    let refs = extract_refs(t.body.as_slice());
    let ghost rv = spec_extract_refs(t@.body);
    let ghost o = findings_view(out@);
    proof {
        lemma_extract_refs_lines(t@.body);
    }
    let mut i: usize = 0;
    assert(rv.subrange(0, 0) =~= Seq::<(u32, Seq<u8>)>::empty());
    assert(o + Seq::<FindingView>::empty() =~= o);
    while i < refs.len()
        invariant
            i <= refs@.len(),
            refs_view(refs@) == rv,
            t@.header_lines + 2 + t@.body.len() <= u32::MAX,
            forall|k: int| 0 <= k < rv.len() ==> (#[trigger] rv[k]).0 <= t@.body.len(),
            findings_view(out@) == o + body_ref_findings(
                t@.rel,
                t@.header_lines,
                rv.subrange(0, i as int),
                seqs_view(known@),
            ),
        decreases refs@.len() - i,
    {
        proof {
            assert(rv.subrange(0, i + 1).drop_last() =~= rv.subrange(0, i as int));
            assert(rv.subrange(0, i + 1).last() == rv[i as int]);
            assert(rv[i as int] == (refs@[i as int].0, refs@[i as int].1@));
        }
        let ghost before = findings_view(out@);
        let line = refs[i].0;
        if !contains_bytes(known, refs[i].1.as_slice()) {
            let f = Finding::UnresolvedRef {
                file: copy(&t.rel),
                line: t.header_lines + 2 + line,
                id: copy(&refs[i].1),
            };
            push_finding(out, f);
            assert(findings_view(out@) =~= o + body_ref_findings(
                t@.rel,
                t@.header_lines,
                rv.subrange(0, i + 1),
                seqs_view(known@),
            ));
        } else {
            assert(findings_view(out@) =~= o + body_ref_findings(
                t@.rel,
                t@.header_lines,
                rv.subrange(0, i + 1),
                seqs_view(known@),
            ));
        }
        i = i + 1;
    }
    assert(rv.subrange(0, rv.len() as int) =~= rv);
}

fn dep_refs_exec(t: &TaskFile, known: &Vec<Vec<u8>>, out: &mut Vec<Finding>)
    ensures
        findings_view(final(out)@) == findings_view(old(out)@) + dep_ref_findings(
            t@.rel,
            t@.depends_on,
            seqs_view(known@),
        ),
{
    let ghost dv = t@.depends_on;
    let ghost o = findings_view(out@);
    let mut i: usize = 0;
    assert(dv.subrange(0, 0) =~= Seq::<Seq<u8>>::empty());
    assert(o + Seq::<FindingView>::empty() =~= o);
    while i < t.depends_on.len()
        invariant
            i <= t.depends_on@.len(),
            dv == seqs_view(t.depends_on@),
            findings_view(out@) == o + dep_ref_findings(t@.rel, dv.subrange(0, i as int), seqs_view(known@)),
        decreases t.depends_on@.len() - i,
    {
        proof {
            assert(dv.subrange(0, i + 1).drop_last() =~= dv.subrange(0, i as int));
            assert(dv.subrange(0, i + 1).last() == t.depends_on@[i as int]@);
        }
        if !contains_bytes(known, t.depends_on[i].as_slice()) {
            let f = Finding::UnresolvedRef {
                file: copy(&t.rel),
                line: 0,
                id: copy(&t.depends_on[i]),
            };
            push_finding(out, f);
        }
        assert(findings_view(out@) =~= o + dep_ref_findings(t@.rel, dv.subrange(0, i + 1), seqs_view(known@)));
        i = i + 1;
    }
    assert(dv.subrange(0, dv.len() as int) =~= dv);
}

fn is_status_word_exec(p: &[u8]) -> (r: bool)
    ensures
        r == is_status_word(p@),
{
    bytes_eq(p, lit("open").as_slice()) || bytes_eq(p, lit("parked").as_slice()) || bytes_eq(
        p,
        lit("done").as_slice(),
    )
}

fn task_findings_exec(t: &TaskFile, known: &Vec<Vec<u8>>, out: &mut Vec<Finding>)
    requires
        t@.header_lines + 2 + t@.body.len() <= u32::MAX,
    ensures
        findings_view(final(out)@) == findings_view(old(out)@) + task_findings(t@, seqs_view(known@)),
{
    let ghost o = findings_view(out@);
    let ghost tv = t@;
    let ghost kv = seqs_view(known@);
    let mut i: usize = 0;
    assert(tv.malformed.subrange(0, 0) =~= Seq::<Seq<u8>>::empty());
    while i < t.malformed.len()
        invariant
            i <= t.malformed@.len(),
            tv == t@,
            findings_view(out@) == o + malformed_findings(tv.rel, tv.malformed.subrange(0, i as int)),
        decreases t.malformed@.len() - i,
    {
        push_finding(out, Finding::Malformed { file: copy(&t.rel), detail: copy(&t.malformed[i]) });
        assert(malformed_findings(tv.rel, tv.malformed.subrange(0, i + 1)) =~= malformed_findings(
            tv.rel,
            tv.malformed.subrange(0, i as int),
        ).push(FindingView::Malformed { file: tv.rel, detail: tv.malformed[i as int] }));
        i = i + 1;
    }
    assert(tv.malformed.subrange(0, tv.malformed.len() as int) =~= tv.malformed);
    let ghost mal = malformed_findings(tv.rel, tv.malformed);
    if t.malformed.len() > 0 || t.status.len() == 0 {
        return;
    }
    let ghost after_mal = findings_view(out@);
    match &t.prose_status {
        Some(p) => {
            if !bytes_eq(p.as_slice(), t.status.as_slice()) || !is_status_word_exec(p.as_slice()) {
                push_finding(
                    out,
                    Finding::StatusMismatch { file: copy(&t.rel), front: copy(&t.status), prose: copy(p) },
                );
            }
        },
        None => {},
    }
    assert(findings_view(out@) =~= after_mal + mismatch_findings(tv));
    let ghost after_mis = findings_view(out@);
    let is_done = bytes_eq(t.status.as_slice(), lit("done").as_slice());
    if t.in_done_dir && !is_done {
        let d = concat3(lit("status is `").as_slice(), t.status.as_slice(), lit("`, but the file is in done/").as_slice());
        push_finding(out, Finding::Misplaced { file: copy(&t.rel), detail: d });
    } else if !t.in_done_dir && is_done {
        push_finding(
            out,
            Finding::Misplaced {
                file: copy(&t.rel),
                detail: lit("status is `done`, but the file is at the top level (move it to done/)"),
            },
        );
    }
    assert(findings_view(out@) =~= after_mis + placement_findings(tv));
    let ghost after_place = findings_view(out@);
    if !t.in_done_dir {
        body_refs_exec(t, known, out);
        dep_refs_exec(t, known, out);
        assert(findings_view(out@) =~= after_place + (body_ref_findings(
            tv.rel,
            tv.header_lines,
            spec_extract_refs(tv.body),
            kv,
        ) + dep_ref_findings(tv.rel, tv.depends_on, kv)));
    } else {
        assert(findings_view(out@) =~= after_place + Seq::<FindingView>::empty());
    }
    let ghost after_refs = findings_view(out@);
    if is_done && t.commit.is_none() {
        match recover_commit_from_status_line(&t.status_line) {
            Some(h) => {
                push_finding(out, Finding::MissingCommit { file: copy(&t.rel), candidate: h });
            },
            None => {},
        }
    }
    assert(findings_view(out@) =~= after_refs + commit_findings(tv));
}

/// Per-file checks: malformed blocks, status/prose agreement, placement,
/// prose references, recoverable commits.
pub fn file_findings(tree: &Tree) -> (r: Vec<Finding>)
    requires
        lines_fit(tree@.tasks),
    ensures
        findings_view(r@) == spec_file_findings(tree@.tasks, tree@.known_ids),
{
    let ghost tv = tree@.tasks;
    let mut out: Vec<Finding> = Vec::new();
    let mut i: usize = 0;
    assert(tv.subrange(0, 0) =~= Seq::<TaskFileView>::empty());
    assert(findings_view(out@) =~= Seq::<FindingView>::empty());
    while i < tree.tasks.len()
        invariant
            i <= tree.tasks@.len(),
            tv == tree@.tasks,
            lines_fit(tv),
            findings_view(out@) == spec_file_findings(tv.subrange(0, i as int), tree@.known_ids),
        decreases tree.tasks@.len() - i,
    {
        proof {
            assert(tv.subrange(0, i + 1).drop_last() =~= tv.subrange(0, i as int));
            assert(tv.subrange(0, i + 1).last() == tree.tasks@[i as int]@);
            assert(tv[i as int] == tree.tasks@[i as int]@);
        }
        task_findings_exec(&tree.tasks[i], &tree.known_ids, &mut out);
        i = i + 1;
    }
    assert(tv.subrange(0, tv.len() as int) =~= tv);
    out
}

/// The part of a path after its last `/`.
pub open spec fn basename(s: Seq<u8>) -> Seq<u8>
    decreases s.len(),
{
    proof {
        lemma_find_from_bounds(s, seq![47u8], 0);
    }
    match index_of_byte(s, 47) {
        None => s,
        Some(k) => basename(s.subrange(k + 1, s.len() as int)),
    }
}

/// The part of a path after its last `/`.
pub fn basename_exec(s: &[u8]) -> (r: Vec<u8>)
    ensures
        r@ == basename(s@),
{
    let mut rest = slice_to_vec(s, 0, s.len());
    assert(rest@ =~= s@);
    loop
        invariant
            basename(rest@) == basename(s@),
        decreases rest@.len(),
    {
        proof {
            lemma_find_from_bounds(rest@, seq![47u8], 0);
        }
        let n = rest.len();
        match index_of_byte_exec(rest.as_slice(), 47) {
            None => return rest,
            Some(k) => {
                rest = slice_to_vec(rest.as_slice(), k + 1, n);
            },
        }
    }
}

/// `DuplicateId` for each id claimed by more than one file, in id order.
pub open spec fn claim_dups(claims: Seq<(Seq<u8>, Seq<Seq<u8>>)>) -> Seq<FindingView>
    decreases claims.len(),
{
    if claims.len() == 0 {
        Seq::empty()
    } else {
        claim_dups(claims.drop_last()) + if claims.last().1.len() > 1 {
            seq![FindingView::DuplicateId { id: claims.last().0, files: claims.last().1 }]
        } else {
            Seq::empty()
        }
    }
}

/// The claimants of `id`, if any file claims it: the first entry of
/// `claims[i..]` with that key.
pub open spec fn claimants(claims: Seq<(Seq<u8>, Seq<Seq<u8>>)>, id: Seq<u8>, i: int) -> Option<
    Seq<Seq<u8>>,
>
    decreases claims.len() - i,
{
    if i < 0 || i >= claims.len() {
        None
    } else if claims[i].0 == id {
        Some(claims[i].1)
    } else {
        claimants(claims, id, i + 1)
    }
}

/// Some claimant has the basename `name`.
pub open spec fn some_named(files: Seq<Seq<u8>>, name: Seq<u8>) -> bool {
    exists|k: int| 0 <= k < files.len() && basename(#[trigger] files[k]) == name
}

/// `todo.md:N`.
pub open spec fn todo_loc(line: u32) -> Seq<u8> {
    "todo.md:".spec_bytes() + decimal(line as nat)
}

/// A list number that a file's id claims while the entry links another
/// file: both claimants are named.
pub open spec fn listed_claim_dups(
    listed: Seq<(Seq<u8>, Seq<u8>, u32)>,
    claims: Seq<(Seq<u8>, Seq<Seq<u8>>)>,
) -> Seq<FindingView>
    decreases listed.len(),
{
    if listed.len() == 0 {
        Seq::empty()
    } else {
        let (num, file, line) = listed.last();
        listed_claim_dups(listed.drop_last(), claims) + match claimants(claims, num, 0) {
            Some(cl) => if !some_named(cl, basename(file)) {
                seq![FindingView::DuplicateId { id: num, files: seq![todo_loc(line)] + cl }]
            } else {
                Seq::empty()
            },
            None => Seq::empty(),
        }
    }
}

/// The list numbers, sorted, each with the lines it sits on in list order.
pub open spec fn nums_of(listed: Seq<(Seq<u8>, Seq<u8>, u32)>) -> Seq<(Seq<u8>, Seq<u32>)>
    decreases listed.len(),
{
    if listed.len() == 0 {
        Seq::empty()
    } else {
        let m = nums_of(listed.drop_last());
        let (num, _f, line) = listed.last();
        let p = pos_from(m.map_values(|e: (Seq<u8>, Seq<u32>)| e.0), num, 0);
        if p < m.len() && m[p].0 == num {
            m.update(p, (num, m[p].1.push(line)))
        } else {
            m.insert(p, (num, seq![line]))
        }
    }
}

/// `DuplicateId` for each list number on more than one line.
pub open spec fn num_dups(nums: Seq<(Seq<u8>, Seq<u32>)>) -> Seq<FindingView>
    decreases nums.len(),
{
    if nums.len() == 0 {
        Seq::empty()
    } else {
        num_dups(nums.drop_last()) + if nums.last().1.len() > 1 {
            seq![
                FindingView::DuplicateId {
                    id: nums.last().0,
                    files: nums.last().1.map_values(|l: u32| todo_loc(l)),
                },
            ]
        } else {
            Seq::empty()
        }
    }
}

/// A live open or parked task: must be listed.
pub open spec fn must_be_listed(t: TaskFileView) -> bool {
    !(t.in_done_dir || t.status.len() == 0 || t.status == "done".spec_bytes())
}

/// The files the list links.
pub open spec fn listed_files(listed: Seq<(Seq<u8>, Seq<u8>, u32)>) -> Seq<Seq<u8>> {
    listed.map_values(|e: (Seq<u8>, Seq<u8>, u32)| e.1)
}

/// Live open tasks missing from the list.
pub open spec fn unlisted_findings(tasks: Seq<TaskFileView>, files: Seq<Seq<u8>>) -> Seq<
    FindingView,
>
    decreases tasks.len(),
{
    if tasks.len() == 0 {
        Seq::empty()
    } else {
        let t = tasks.last();
        let name = basename(t.rel);
        unlisted_findings(tasks.drop_last(), files) + if must_be_listed(t) && !files.contains(name) {
            seq![
                FindingView::IndexDrift {
                    detail: name + " is ".spec_bytes() + t.status + " but not listed in todo.md".spec_bytes(),
                },
            ]
        } else {
            Seq::empty()
        }
    }
}

/// The first of `tasks[i..]` whose basename is `file`.
pub open spec fn task_named_from(tasks: Seq<TaskFileView>, file: Seq<u8>, i: int) -> Option<
    TaskFileView,
>
    decreases tasks.len() - i,
{
    if i < 0 || i >= tasks.len() {
        None
    } else if basename(tasks[i].rel) == file {
        Some(tasks[i])
    } else {
        task_named_from(tasks, file, i + 1)
    }
}

/// List entries whose file is not in the tree, or is done.
pub open spec fn listed_drift(listed: Seq<(Seq<u8>, Seq<u8>, u32)>, tasks: Seq<TaskFileView>) -> Seq<
    FindingView,
>
    decreases listed.len(),
{
    if listed.len() == 0 {
        Seq::empty()
    } else {
        let (num, file, line) = listed.last();
        listed_drift(listed.drop_last(), tasks) + match task_named_from(tasks, file, 0) {
            None => seq![
                FindingView::IndexDrift {
                    detail: todo_loc(line) + " lists ".spec_bytes() + file
                        + ", which is not in the tree (number ".spec_bytes() + num + ")".spec_bytes(),
                },
            ],
            Some(t) => if t.in_done_dir || t.status == "done".spec_bytes() {
                seq![
                    FindingView::IndexDrift {
                        detail: todo_loc(line) + " lists ".spec_bytes() + file + " (number ".spec_bytes()
                            + num + "), which is done".spec_bytes(),
                    },
                ]
            } else {
                Seq::empty()
            },
        }
    }
}

/// Index checks: duplicate ids, and the list agreeing with the tree.
pub open spec fn spec_index_findings(tree: TreeView) -> Seq<FindingView> {
    claim_dups(tree.id_claims) + if !tree.todo_marked {
        seq![
            FindingView::IndexDrift {
                detail: "todo.md carries no generated-region markers; its list is not reconcilable by --fix".spec_bytes(),
            },
        ]
    } else {
        listed_claim_dups(tree.listed, tree.id_claims) + num_dups(nums_of(tree.listed))
            + unlisted_findings(tree.tasks, listed_files(tree.listed)) + listed_drift(
            tree.listed,
            tree.tasks,
        )
    }
}

fn copy_all(v: &Vec<Vec<u8>>) -> (r: Vec<Vec<u8>>)
    ensures
        seqs_view(r@) == seqs_view(v@),
{
    let mut out: Vec<Vec<u8>> = Vec::new();
    let mut i: usize = 0;
    while i < v.len()
        invariant
            i <= v@.len(),
            seqs_view(out@) == seqs_view(v@).subrange(0, i as int),
        decreases v@.len() - i,
    {
        let c = copy(&v[i]);
        let ghost cv = c@;
        let ghost o = out@;
        out.push(c);
        assert(seqs_view(out@) =~= seqs_view(o).push(cv));
        assert(seqs_view(v@).subrange(0, i + 1) =~= seqs_view(v@).subrange(0, i as int).push(cv));
        i = i + 1;
    }
    assert(seqs_view(v@).subrange(0, v@.len() as int) =~= seqs_view(v@));
    out
}

fn claim_dups_exec(claims: &Vec<(Vec<u8>, Vec<Vec<u8>>)>, out: &mut Vec<Finding>)
    ensures
        findings_view(final(out)@) == findings_view(old(out)@) + claim_dups(claims_view(claims@)),
{
    let ghost cv = claims_view(claims@);
    let ghost o = findings_view(out@);
    let mut i: usize = 0;
    assert(cv.subrange(0, 0) =~= Seq::<(Seq<u8>, Seq<Seq<u8>>)>::empty());
    assert(o + Seq::<FindingView>::empty() =~= o);
    while i < claims.len()
        invariant
            i <= claims@.len(),
            cv == claims_view(claims@),
            findings_view(out@) == o + claim_dups(cv.subrange(0, i as int)),
        decreases claims@.len() - i,
    {
        proof {
            assert(cv.subrange(0, i + 1).drop_last() =~= cv.subrange(0, i as int));
            assert(cv.subrange(0, i + 1).last() == cv[i as int]);
        }
        if claims[i].1.len() > 1 {
            push_finding(
                out,
                Finding::DuplicateId { id: copy(&claims[i].0), files: copy_all(&claims[i].1) },
            );
        }
        assert(findings_view(out@) =~= o + claim_dups(cv.subrange(0, i + 1)));
        i = i + 1;
    }
    assert(cv.subrange(0, cv.len() as int) =~= cv);
}

fn todo_loc_exec(line: u32) -> (r: Vec<u8>)
    ensures
        r@ == todo_loc(line),
{
    concat3(lit("todo.md:").as_slice(), decimal_exec(line).as_slice(), &[])
}

/// The claimants of `id`.
fn claimants_exec(claims: &Vec<(Vec<u8>, Vec<Vec<u8>>)>, id: &[u8]) -> (r: Option<Vec<Vec<u8>>>)
    ensures
        match claimants(claims_view(claims@), id@, 0) {
            Some(cl) => r matches Some(v) && seqs_view(v@) == cl,
            None => r is None,
        },
{
    let ghost cv = claims_view(claims@);
    let mut i: usize = 0;
    while i < claims.len()
        invariant
            i <= claims@.len(),
            cv == claims_view(claims@),
            claimants(cv, id@, i as int) == claimants(cv, id@, 0),
        decreases claims@.len() - i,
    {
        if bytes_eq(claims[i].0.as_slice(), id) {
            return Some(copy_all(&claims[i].1));
        }
        i = i + 1;
    }
    None
}

fn some_named_exec(files: &Vec<Vec<u8>>, name: &[u8]) -> (r: bool)
    ensures
        r == some_named(seqs_view(files@), name@),
{
    let ghost fv = seqs_view(files@);
    let mut i: usize = 0;
    while i < files.len()
        invariant
            i <= files@.len(),
            fv == seqs_view(files@),
            forall|k: int| 0 <= k < i ==> basename(#[trigger] fv[k]) != name@,
        decreases files@.len() - i,
    {
        let b = basename_exec(files[i].as_slice());
        if bytes_eq(b.as_slice(), name) {
            assert(basename(fv[i as int]) == name@);
            return true;
        }
        i = i + 1;
    }
    false
}

fn listed_claim_dups_exec(tree: &Tree, out: &mut Vec<Finding>)
    ensures
        findings_view(final(out)@) == findings_view(old(out)@) + listed_claim_dups(
            tree@.listed,
            tree@.id_claims,
        ),
{
    let ghost lv = tree@.listed;
    let ghost o = findings_view(out@);
    let mut i: usize = 0;
    assert(lv.subrange(0, 0) =~= Seq::<(Seq<u8>, Seq<u8>, u32)>::empty());
    assert(o + Seq::<FindingView>::empty() =~= o);
    while i < tree.listed.len()
        invariant
            i <= tree.listed@.len(),
            lv == tree@.listed,
            findings_view(out@) == o + listed_claim_dups(lv.subrange(0, i as int), tree@.id_claims),
        decreases tree.listed@.len() - i,
    {
        proof {
            assert(lv.subrange(0, i + 1).drop_last() =~= lv.subrange(0, i as int));
            assert(lv.subrange(0, i + 1).last() == lv[i as int]);
        }
        let num = &tree.listed[i].0;
        let file = &tree.listed[i].1;
        let line = tree.listed[i].2;
        match claimants_exec(&tree.id_claims, num.as_slice()) {
            Some(cl) => {
                let base = basename_exec(file.as_slice());
                if !some_named_exec(&cl, base.as_slice()) {
                    let mut files: Vec<Vec<u8>> = Vec::new();
                    files.push(todo_loc_exec(line));
                    let mut rest = cl;
                    let ghost r0 = seqs_view(rest@);
                    let ghost f0 = seqs_view(files@);
                    files.append(&mut rest);
                    assert(seqs_view(files@) =~= f0 + r0);
                    assert(f0 =~= seq![todo_loc(line)]);
                    push_finding(out, Finding::DuplicateId { id: copy(num), files });
                }
            },
            None => {},
        }
        assert(findings_view(out@) =~= o + listed_claim_dups(lv.subrange(0, i + 1), tree@.id_claims));
        i = i + 1;
    }
    assert(lv.subrange(0, lv.len() as int) =~= lv);
}

pub open spec fn nums_view(v: Seq<(Vec<u8>, Vec<u32>)>) -> Seq<(Seq<u8>, Seq<u32>)> {
    v.map_values(|e: (Vec<u8>, Vec<u32>)| (e.0@, e.1@))
}

fn nums_exec(tree: &Tree) -> (r: Vec<(Vec<u8>, Vec<u32>)>)
    ensures
        nums_view(r@) == nums_of(tree@.listed),
{
    let ghost lv = tree@.listed;
    let mut m: Vec<(Vec<u8>, Vec<u32>)> = Vec::new();
    let mut i: usize = 0;
    assert(lv.subrange(0, 0) =~= Seq::<(Seq<u8>, Seq<u8>, u32)>::empty());
    assert(nums_view(m@) =~= Seq::<(Seq<u8>, Seq<u32>)>::empty());
    while i < tree.listed.len()
        invariant
            i <= tree.listed@.len(),
            lv == tree@.listed,
            nums_view(m@) == nums_of(lv.subrange(0, i as int)),
        decreases tree.listed@.len() - i,
    {
        proof {
            assert(lv.subrange(0, i + 1).drop_last() =~= lv.subrange(0, i as int));
            assert(lv.subrange(0, i + 1).last() == lv[i as int]);
        }
        let ghost mv = nums_view(m@);
        assert(mv.map_values(|e: (Seq<u8>, Seq<u32>)| e.0) =~= keys_of(m@));
        let num = copy(&tree.listed[i].0);
        let line = tree.listed[i].2;
        let p = key_pos(&m, num.as_slice());
        if p < m.len() && bytes_eq(m[p].0.as_slice(), num.as_slice()) {
            let (k, mut lines) = m.remove(p);
            lines.push(line);
            m.insert(p, (k, lines));
            assert(nums_view(m@) =~= mv.update(p as int, (num@, mv[p as int].1.push(line))));
        } else {
            let ghost nv = num@;
            let mut lines: Vec<u32> = Vec::new();
            lines.push(line);
            m.insert(p, (num, lines));
            assert(nums_view(m@) =~= mv.insert(p as int, (nv, seq![line])));
        }
        i = i + 1;
    }
    assert(lv.subrange(0, lv.len() as int) =~= lv);
    m
}

fn num_dups_exec(nums: &Vec<(Vec<u8>, Vec<u32>)>, out: &mut Vec<Finding>)
    ensures
        findings_view(final(out)@) == findings_view(old(out)@) + num_dups(nums_view(nums@)),
{
    let ghost nv = nums_view(nums@);
    let ghost o = findings_view(out@);
    let mut i: usize = 0;
    assert(nv.subrange(0, 0) =~= Seq::<(Seq<u8>, Seq<u32>)>::empty());
    assert(o + Seq::<FindingView>::empty() =~= o);
    while i < nums.len()
        invariant
            i <= nums@.len(),
            nv == nums_view(nums@),
            findings_view(out@) == o + num_dups(nv.subrange(0, i as int)),
        decreases nums@.len() - i,
    {
        proof {
            assert(nv.subrange(0, i + 1).drop_last() =~= nv.subrange(0, i as int));
            assert(nv.subrange(0, i + 1).last() == nv[i as int]);
        }
        let lines = &nums[i].1;
        if lines.len() > 1 {
            let mut files: Vec<Vec<u8>> = Vec::new();
            let mut j: usize = 0;
            while j < lines.len()
                invariant
                    j <= lines@.len(),
                    seqs_view(files@) == lines@.subrange(0, j as int).map_values(|l: u32| todo_loc(l)),
                decreases lines@.len() - j,
            {
                let loc = todo_loc_exec(lines[j]);
                let ghost o2 = files@;
                let ghost lw = loc@;
                files.push(loc);
                proof {
                    crate::refs::lemma_seqs_view_push(o2, files@.last());
                    assert(files@ == o2.push(files@.last()));
                    assert(lines@.subrange(0, j + 1).map_values(|l: u32| todo_loc(l)) =~= lines@.subrange(
                        0,
                        j as int,
                    ).map_values(|l: u32| todo_loc(l)).push(todo_loc(lines@[j as int])));
                }
                j = j + 1;
            }
            assert(lines@.subrange(0, lines@.len() as int) =~= lines@);
            push_finding(out, Finding::DuplicateId { id: copy(&nums[i].0), files });
        }
        assert(findings_view(out@) =~= o + num_dups(nv.subrange(0, i + 1)));
        i = i + 1;
    }
    assert(nv.subrange(0, nv.len() as int) =~= nv);
}

fn listed_contains(listed: &Vec<ListEntry>, name: &[u8]) -> (r: bool)
    ensures
        r == listed_files(listed_view(listed@)).contains(name@),
{
    let ghost fv = listed_files(listed_view(listed@));
    let mut i: usize = 0;
    while i < listed.len()
        invariant
            i <= listed@.len(),
            fv == listed_files(listed_view(listed@)),
            forall|k: int| 0 <= k < i ==> fv[k] != name@,
        decreases listed@.len() - i,
    {
        if bytes_eq(listed[i].1.as_slice(), name) {
            assert(fv[i as int] == name@);
            return true;
        }
        i = i + 1;
    }
    false
}

fn unlisted_exec(tree: &Tree, out: &mut Vec<Finding>)
    ensures
        findings_view(final(out)@) == findings_view(old(out)@) + unlisted_findings(
            tree@.tasks,
            listed_files(tree@.listed),
        ),
{
    let ghost tv = tree@.tasks;
    let ghost files = listed_files(tree@.listed);
    let ghost o = findings_view(out@);
    let mut i: usize = 0;
    assert(tv.subrange(0, 0) =~= Seq::<TaskFileView>::empty());
    assert(o + Seq::<FindingView>::empty() =~= o);
    while i < tree.tasks.len()
        invariant
            i <= tree.tasks@.len(),
            tv == tree@.tasks,
            files == listed_files(tree@.listed),
            findings_view(out@) == o + unlisted_findings(tv.subrange(0, i as int), files),
        decreases tree.tasks@.len() - i,
    {
        proof {
            assert(tv.subrange(0, i + 1).drop_last() =~= tv.subrange(0, i as int));
            assert(tv.subrange(0, i + 1).last() == tree.tasks@[i as int]@);
        }
        let t = &tree.tasks[i];
        let done = bytes_eq(t.status.as_slice(), lit("done").as_slice());
        if !(t.in_done_dir || t.status.len() == 0 || done) {
            let name = basename_exec(t.rel.as_slice());
            if !listed_contains(&tree.listed, name.as_slice()) {
                let d = concat3(name.as_slice(), lit(" is ").as_slice(), t.status.as_slice());
                let mut d = d;
                append_bytes(&mut d, lit(" but not listed in todo.md").as_slice());
                push_finding(out, Finding::IndexDrift { detail: d });
            }
        }
        assert(findings_view(out@) =~= o + unlisted_findings(tv.subrange(0, i + 1), files));
        i = i + 1;
    }
    assert(tv.subrange(0, tv.len() as int) =~= tv);
}

/// Where the first task whose basename is `file` stands, if any.
fn task_named_exec(tasks: &Vec<TaskFile>, file: &[u8]) -> (r: Option<usize>)
    ensures
        match task_named_from(tasks_view(tasks@), file@, 0) {
            Some(t) => r matches Some(i) && i < tasks@.len() && tasks@[i as int]@ == t,
            None => r is None,
        },
{
    let ghost tv = tasks_view(tasks@);
    let mut i: usize = 0;
    while i < tasks.len()
        invariant
            i <= tasks@.len(),
            tv == tasks_view(tasks@),
            task_named_from(tv, file@, i as int) == task_named_from(tv, file@, 0),
        decreases tasks@.len() - i,
    {
        let b = basename_exec(tasks[i].rel.as_slice());
        if bytes_eq(b.as_slice(), file) {
            return Some(i);
        }
        i = i + 1;
    }
    None
}

fn listed_drift_exec(tree: &Tree, out: &mut Vec<Finding>)
    ensures
        findings_view(final(out)@) == findings_view(old(out)@) + listed_drift(tree@.listed, tree@.tasks),
{
    let ghost lv = tree@.listed;
    let ghost o = findings_view(out@);
    let mut i: usize = 0;
    assert(lv.subrange(0, 0) =~= Seq::<(Seq<u8>, Seq<u8>, u32)>::empty());
    assert(o + Seq::<FindingView>::empty() =~= o);
    while i < tree.listed.len()
        invariant
            i <= tree.listed@.len(),
            lv == tree@.listed,
            findings_view(out@) == o + listed_drift(lv.subrange(0, i as int), tree@.tasks),
        decreases tree.listed@.len() - i,
    {
        proof {
            assert(lv.subrange(0, i + 1).drop_last() =~= lv.subrange(0, i as int));
            assert(lv.subrange(0, i + 1).last() == lv[i as int]);
        }
        let num = &tree.listed[i].0;
        let file = &tree.listed[i].1;
        let line = tree.listed[i].2;
        match task_named_exec(&tree.tasks, file.as_slice()) {
            None => {
                let mut d = concat3(todo_loc_exec(line).as_slice(), lit(" lists ").as_slice(), file.as_slice());
                append_bytes(&mut d, lit(", which is not in the tree (number ").as_slice());
                append_bytes(&mut d, num.as_slice());
                append_bytes(&mut d, lit(")").as_slice());
                push_finding(out, Finding::IndexDrift { detail: d });
            },
            Some(k) => {
                let t = &tree.tasks[k];
                if t.in_done_dir || bytes_eq(t.status.as_slice(), lit("done").as_slice()) {
                    let mut d = concat3(todo_loc_exec(line).as_slice(), lit(" lists ").as_slice(), file.as_slice());
                    append_bytes(&mut d, lit(" (number ").as_slice());
                    append_bytes(&mut d, num.as_slice());
                    append_bytes(&mut d, lit("), which is done").as_slice());
                    push_finding(out, Finding::IndexDrift { detail: d });
                }
            },
        }
        assert(findings_view(out@) =~= o + listed_drift(lv.subrange(0, i + 1), tree@.tasks));
        i = i + 1;
    }
    assert(lv.subrange(0, lv.len() as int) =~= lv);
}

/// Index checks: duplicate ids (front matter ids and list numbers are both
/// identities) and the list agreeing with the tree in both directions.
pub fn index_findings(tree: &Tree) -> (r: Vec<Finding>)
    ensures
        findings_view(r@) == spec_index_findings(tree@),
{
    let mut out: Vec<Finding> = Vec::new();
    assert(findings_view(out@) =~= Seq::<FindingView>::empty());
    claim_dups_exec(&tree.id_claims, &mut out);
    let ghost a = findings_view(out@);
    if !tree.todo_marked {
        push_finding(
            &mut out,
            Finding::IndexDrift {
                detail: lit("todo.md carries no generated-region markers; its list is not reconcilable by --fix"),
            },
        );
        assert(findings_view(out@) =~= spec_index_findings(tree@));
    } else {
        listed_claim_dups_exec(tree, &mut out);
        let nums = nums_exec(tree);
        num_dups_exec(&nums, &mut out);
        unlisted_exec(tree, &mut out);
        listed_drift_exec(tree, &mut out);
        assert(findings_view(out@) =~= spec_index_findings(tree@));
    }
    out
}


proof fn lemma_dep_ref_reported(rel: Seq<u8>, deps: Seq<Seq<u8>>, known: Seq<Seq<u8>>, d: Seq<u8>)
    requires
        deps.contains(d),
        !known.contains(d),
    ensures
        dep_ref_findings(rel, deps, known).contains(FindingView::UnresolvedRef { file: rel, line: 0, id: d }),
    decreases deps.len(),
{
    let f = FindingView::UnresolvedRef { file: rel, line: 0, id: d };
    let prev = dep_ref_findings(rel, deps.drop_last(), known);
    if deps.last() == d {
        let all = dep_ref_findings(rel, deps, known);
        assert(all[prev.len() as int] == f);
    } else {
        let k = choose|k: int| 0 <= k < deps.len() && deps[k] == d;
        assert(deps.drop_last()[k] == d);
        lemma_dep_ref_reported(rel, deps.drop_last(), known, d);
        let w = choose|w: int| 0 <= w < prev.len() && prev[w] == f;
        assert(dep_ref_findings(rel, deps, known)[w] == f);
    }
}

proof fn lemma_file_findings_include(tasks: Seq<TaskFileView>, known: Seq<Seq<u8>>, j: int, f: FindingView)
    requires
        0 <= j < tasks.len(),
        task_findings(tasks[j], known).contains(f),
    ensures
        spec_file_findings(tasks, known).contains(f),
    decreases tasks.len(),
{
    let prev = spec_file_findings(tasks.drop_last(), known);
    let here = task_findings(tasks.last(), known);
    if j == tasks.len() - 1 {
        let w = choose|w: int| 0 <= w < here.len() && here[w] == f;
        assert(spec_file_findings(tasks, known)[prev.len() + w] == f);
    } else {
        assert(tasks.drop_last()[j] == tasks[j]);
        lemma_file_findings_include(tasks.drop_last(), known, j, f);
        let w = choose|w: int| 0 <= w < prev.len() && prev[w] == f;
        assert(spec_file_findings(tasks, known)[w] == f);
    }
}

/// A dependency that names no known task is reported: for a well-formed
/// task file outside `done/` whose `depends-on` list holds an id that is
/// not among the known ids, the per-file findings hold an unresolved
/// reference from that file's front matter (line 0) to that id.
pub proof fn lemma_unknown_dependency_is_reported(
    tasks: Seq<TaskFileView>,
    known: Seq<Seq<u8>>,
    j: int,
    d: Seq<u8>,
)
    requires
        0 <= j < tasks.len(),
        tasks[j].malformed.len() == 0,
        tasks[j].status.len() > 0,
        !tasks[j].in_done_dir,
        tasks[j].depends_on.contains(d),
        !known.contains(d),
    ensures
        spec_file_findings(tasks, known).contains(
            FindingView::UnresolvedRef { file: tasks[j].rel, line: 0, id: d },
        ),
{
    let t = tasks[j];
    let f = FindingView::UnresolvedRef { file: t.rel, line: 0, id: d };
    lemma_dep_ref_reported(t.rel, t.depends_on, known, d);
    let mal = malformed_findings(t.rel, t.malformed);
    let a = mal + mismatch_findings(t) + placement_findings(t);
    let b = body_ref_findings(t.rel, t.header_lines, spec_extract_refs(t.body), known);
    let dr = dep_ref_findings(t.rel, t.depends_on, known);
    let c = commit_findings(t);
    assert(task_findings(t, known) == a + (b + dr) + c);
    let w = choose|w: int| 0 <= w < dr.len() && dr[w] == f;
    assert(task_findings(t, known)[a.len() + b.len() + w] == f);
    lemma_file_findings_include(tasks, known, j, f);
}


/// The dependency findings of a file report only what is wrong: each is an
/// unresolved reference from that file's front matter (line 0) to one of
/// its `depends-on` items that names no known task, so a file whose
/// dependencies are all known gets none.
pub proof fn lemma_dependency_findings_are_unknown_ids(rel: Seq<u8>, deps: Seq<Seq<u8>>, known: Seq<Seq<u8>>)
    ensures
        forall|w: int|
            0 <= w < dep_ref_findings(rel, deps, known).len() ==> (#[trigger] dep_ref_findings(
                rel,
                deps,
                known,
            )[w] matches FindingView::UnresolvedRef { file, line, id } && file == rel && line == 0
                && deps.contains(id) && !known.contains(id)),
        (forall|k: int| 0 <= k < deps.len() ==> known.contains(#[trigger] deps[k])) ==> dep_ref_findings(
            rel,
            deps,
            known,
        ).len() == 0,
    decreases deps.len(),
{
    if deps.len() > 0 {
        let d = deps.drop_last();
        lemma_dependency_findings_are_unknown_ids(rel, d, known);
        let prev = dep_ref_findings(rel, d, known);
        let all = dep_ref_findings(rel, deps, known);
        assert forall|w: int| 0 <= w < all.len() implies (#[trigger] all[w] matches FindingView::UnresolvedRef {
            file,
            line,
            id,
        } && file == rel && line == 0 && deps.contains(id) && !known.contains(id)) by {
            if w < prev.len() {
                assert(all[w] == prev[w]);
                if let FindingView::UnresolvedRef { file, line, id } = prev[w] {
                    let k = choose|k: int| 0 <= k < d.len() && d[k] == id;
                    assert(deps[k] == id);
                }
            } else {
                assert(deps[deps.len() - 1] == deps.last());
            }
        }
        if forall|k: int| 0 <= k < deps.len() ==> known.contains(#[trigger] deps[k]) {
            assert forall|k: int| 0 <= k < d.len() implies known.contains(#[trigger] d[k]) by {
                assert(d[k] == deps[k]);
            }
            assert(known.contains(deps[deps.len() - 1]));
        }
    }
}

} // verus!
