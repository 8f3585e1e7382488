//! The `tasks/` check's report: the findings of a tree, the lines printed
//! for them, and the one failure the run ends with.
//!
//! Report, do not block: every finding is printed and the run succeeds,
//! except when a front matter block is malformed, a defect in a task file
//! rather than a drift signal.

use vstd::prelude::*;
use vstd::string::StringSliceAdditionalSpecFns;
use crate::bytes::{append_bytes, lit};
use crate::findings::{
    count_malformed, decimal, findings_view, malformed_count, render_spec, Finding, FindingView,
};
use crate::frontmatter::concat3;
use crate::harness::decimal_u64_exec;
use crate::refs::seqs_view;
use crate::tree::{file_findings, index_findings, lines_fit, spec_file_findings, spec_index_findings, Tree};

verus! {

/// The findings of a tree: the per-file ones, then the index ones.
pub open spec fn tree_findings(tree: crate::tree::TreeView) -> Seq<FindingView> {
    spec_file_findings(tree.tasks, tree.known_ids) + spec_index_findings(tree)
}

/// The findings of `tree`.
pub fn check_findings(tree: &Tree) -> (r: Vec<Finding>)
    requires
        lines_fit(tree@.tasks),
    ensures
        findings_view(r@) == tree_findings(tree@),
{
    let mut out = file_findings(tree);
    let mut more = index_findings(tree);
    let ghost a = out@;
    let ghost b = more@;
    out.append(&mut more);
    assert(out@ == a + b);
    assert(findings_view(a + b) =~= findings_view(a) + findings_view(b));
    out
}

/// The lines the check prints: a summary, then each finding indented.
pub open spec fn report_lines(findings: Seq<FindingView>, n_files: nat) -> Seq<Seq<u8>> {
    if findings.len() == 0 {
        seq![
            "xtask tasks: tasks/ is consistent (".spec_bytes() + decimal(n_files)
                + " files checked)".spec_bytes(),
        ]
    } else {
        seq![
            "xtask tasks: ".spec_bytes() + decimal(findings.len()) + " finding(s) in tasks/".spec_bytes(),
        ] + finding_lines(findings)
    }
}

/// The run's failure: a count of the malformed blocks when there is any.
pub open spec fn report_failure(findings: Seq<FindingView>) -> Option<Seq<u8>> {
    if malformed_count(findings) > 0 {
        Some(decimal(malformed_count(findings)) + " malformed front matter block(s)".spec_bytes())
    } else {
        None
    }
}

/// What the check prints, and the failure it ends with, if any.
pub struct CheckReport {
    pub lines: Vec<Vec<u8>>,
    pub failure: Option<Vec<u8>>,
}

/// The report on `findings` over a tree of `n_files` task files.
pub fn report(findings: &Vec<Finding>, n_files: usize) -> (r: CheckReport)
    ensures
        seqs_view(r.lines@) == report_lines(findings_view(findings@), n_files as nat),
        match r.failure {
            Some(f) => report_failure(findings_view(findings@)) == Some(f@),
            None => report_failure(findings_view(findings@)) is None,
        },
{
    let ghost fv = findings_view(findings@);
    let mut lines: Vec<Vec<u8>> = Vec::new();
    if findings.len() == 0 {
        let l = concat3(
            lit("xtask tasks: tasks/ is consistent (").as_slice(),
            decimal_u64_exec(n_files as u64).as_slice(),
            lit(" files checked)").as_slice(),
        );
        lines.push(l);
        assert(seqs_view(lines@) =~= report_lines(fv, n_files as nat));
    } else {
        let l = concat3(
            lit("xtask tasks: ").as_slice(),
            decimal_u64_exec(findings.len() as u64).as_slice(),
            lit(" finding(s) in tasks/").as_slice(),
        );
        lines.push(l);
        push_finding_lines(&mut lines, findings);
        assert(seqs_view(lines@) =~= report_lines(fv, n_files as nat));
    }
    let m = count_malformed(findings);
    let failure = if m > 0 {
        Some(concat3(decimal_u64_exec(m as u64).as_slice(), lit(" malformed front matter block(s)").as_slice(), &[]))
    } else {
        None
    };
    proof {
        if m > 0 {
            assert(failure->0@ =~= decimal(m as nat) + " malformed front matter block(s)".spec_bytes());
        }
    }
    CheckReport { lines, failure }
}

/// Each finding's line, indented.
pub open spec fn finding_lines(findings: Seq<FindingView>) -> Seq<Seq<u8>> {
    findings.map_values(|f: FindingView| "  ".spec_bytes() + render_spec(f))
}

fn push_finding_lines(lines: &mut Vec<Vec<u8>>, findings: &Vec<Finding>)
    ensures
        seqs_view(final(lines)@) == seqs_view(old(lines)@) + finding_lines(findings_view(findings@)),
{
    let ghost fv = findings_view(findings@);
    let mut i: usize = 0;
    while i < findings.len()
        invariant
            fv == findings_view(findings@),
            i <= findings@.len(),
            seqs_view(lines@) == seqs_view(old(lines)@) + finding_lines(fv).subrange(0, i as int),
        decreases findings@.len() - i,
    {
        let mut l = lit("  ");
        let rendered = findings[i].render();
        append_bytes(&mut l, rendered.as_slice());
        let ghost before = lines@;
        lines.push(l);
        proof {
            assert(seqs_view(lines@) =~= seqs_view(before).push(l@));
            assert(finding_lines(fv).subrange(0, i + 1) =~= finding_lines(fv).subrange(0, i as int).push(
                finding_lines(fv)[i as int],
            ));
        }
        i = i + 1;
    }
    assert(finding_lines(fv).subrange(0, fv.len() as int) =~= finding_lines(fv));
}

/// What `--fix` prints before it touches `todo.md`: with a malformed block
/// it refuses (the second part is its failure), listing the per-file
/// findings; otherwise it lists them, if any, and goes on.
pub open spec fn fix_preamble_spec(findings: Seq<FindingView>) -> (Seq<Seq<u8>>, Option<Seq<u8>>) {
    let m = malformed_count(findings);
    if m > 0 {
        (
            seq![
                "xtask tasks: ".spec_bytes() + decimal(m)
                    + " malformed front matter block(s); not touching todo.md".spec_bytes(),
            ] + finding_lines(findings),
            report_failure(findings),
        )
    } else if findings.len() > 0 {
        (
            seq![
                "xtask tasks: ".spec_bytes() + decimal(findings.len())
                    + " finding(s) in tasks/".spec_bytes(),
            ] + finding_lines(findings),
            None,
        )
    } else {
        (Seq::empty(), None)
    }
}

/// What `--fix` prints on the per-file `findings` before it touches
/// `todo.md`, and the failure it refuses with, if any.
pub fn fix_preamble(findings: &Vec<Finding>) -> (r: (Vec<Vec<u8>>, Option<Vec<u8>>))
    ensures
        seqs_view(r.0@) == fix_preamble_spec(findings_view(findings@)).0,
        match r.1 {
            Some(f) => fix_preamble_spec(findings_view(findings@)).1 == Some(f@),
            None => fix_preamble_spec(findings_view(findings@)).1 is None,
        },
{
    let ghost fv = findings_view(findings@);
    let m = count_malformed(findings);
    let mut lines: Vec<Vec<u8>> = Vec::new();
    if m > 0 {
        lines.push(concat3(
            lit("xtask tasks: ").as_slice(),
            decimal_u64_exec(m as u64).as_slice(),
            lit(" malformed front matter block(s); not touching todo.md").as_slice(),
        ));
        push_finding_lines(&mut lines, findings);
        let failure = concat3(decimal_u64_exec(m as u64).as_slice(), lit(" malformed front matter block(s)").as_slice(), &[]);
        proof {
            assert(failure@ =~= decimal(m as nat) + " malformed front matter block(s)".spec_bytes());
        }
        (lines, Some(failure))
    } else if findings.len() > 0 {
        lines.push(concat3(
            lit("xtask tasks: ").as_slice(),
            decimal_u64_exec(findings.len() as u64).as_slice(),
            lit(" finding(s) in tasks/").as_slice(),
        ));
        push_finding_lines(&mut lines, findings);
        (lines, None)
    } else {
        assert(seqs_view(lines@) =~= Seq::<Seq<u8>>::empty());
        (lines, None)
    }
}

/// What `--fix` prints once it reconciled `todo.md`: that nothing changed,
/// or that the region was regenerated, with each entry dropped and each
/// task added.
pub open spec fn fix_outcome_spec(rec: crate::fix::ReconcileView) -> Seq<Seq<u8>> {
    if rec.new_text is None {
        seq!["xtask tasks: todo.md's list already matches the tree".spec_bytes()]
    } else {
        seq!["xtask tasks: regenerated todo.md's list region".spec_bytes()] + rec.dropped.map_values(
            |d: Seq<u8>| "  dropped: ".spec_bytes() + d,
        ) + rec.added.map_values(|a: Seq<u8>| "  added:   ".spec_bytes() + a)
    }
}

fn push_prefixed(lines: &mut Vec<Vec<u8>>, prefix: &[u8], items: &Vec<Vec<u8>>)
    ensures
        seqs_view(final(lines)@) == seqs_view(old(lines)@) + seqs_view(items@).map_values(
            |d: Seq<u8>| prefix@ + d,
        ),
{
    let ghost iv = seqs_view(items@);
    let mut i: usize = 0;
    while i < items.len()
        invariant
            iv == seqs_view(items@),
            i <= items@.len(),
            seqs_view(lines@) == seqs_view(old(lines)@) + iv.map_values(|d: Seq<u8>| prefix@ + d).subrange(
                0,
                i as int,
            ),
        decreases items@.len() - i,
    {
        let mut l: Vec<u8> = Vec::new();
        append_bytes(&mut l, prefix);
        append_bytes(&mut l, items[i].as_slice());
        let ghost before = lines@;
        lines.push(l);
        proof {
            assert(seqs_view(lines@) =~= seqs_view(before).push(l@));
            assert(iv.map_values(|d: Seq<u8>| prefix@ + d).subrange(0, i + 1) =~= iv.map_values(
                |d: Seq<u8>| prefix@ + d,
            ).subrange(0, i as int).push(prefix@ + iv[i as int]));
        }
        i = i + 1;
    }
    assert(iv.map_values(|d: Seq<u8>| prefix@ + d).subrange(0, iv.len() as int) =~= iv.map_values(
        |d: Seq<u8>| prefix@ + d,
    ));
}

/// The lines `--fix` prints about a reconciliation.
pub fn fix_outcome(rec: &crate::fix::Reconciled) -> (r: Vec<Vec<u8>>)
    ensures
        seqs_view(r@) == fix_outcome_spec(rec@),
{
    let mut lines: Vec<Vec<u8>> = Vec::new();
    if rec.new_text.is_none() {
        lines.push(lit("xtask tasks: todo.md's list already matches the tree"));
        assert(seqs_view(lines@) =~= fix_outcome_spec(rec@));
    } else {
        lines.push(lit("xtask tasks: regenerated todo.md's list region"));
        let d = lit("  dropped: ");
        push_prefixed(&mut lines, d.as_slice(), &rec.dropped);
        let a = lit("  added:   ");
        push_prefixed(&mut lines, a.as_slice(), &rec.added);
        assert(seqs_view(lines@) =~= fix_outcome_spec(rec@));
    }
    lines
}

proof fn lemma_malformed_count(fs: Seq<FindingView>)
    ensures
        malformed_count(fs) > 0 <==> exists|i: int| 0 <= i < fs.len() && #[trigger] fs[i] is Malformed,
    decreases fs.len(),
{
    if fs.len() > 0 {
        let prev = fs.drop_last();
        lemma_malformed_count(prev);
        if exists|i: int| 0 <= i < prev.len() && #[trigger] prev[i] is Malformed {
            let i = choose|i: int| 0 <= i < prev.len() && #[trigger] prev[i] is Malformed;
            assert(fs[i] == prev[i]);
        }
        if exists|i: int| 0 <= i < fs.len() && #[trigger] fs[i] is Malformed {
            let i = choose|i: int| 0 <= i < fs.len() && #[trigger] fs[i] is Malformed;
            if i < fs.len() - 1 {
                assert(prev[i] == fs[i]);
            }
        }
    }
}

/// Report, do not block: the check fails exactly when some finding is a
/// malformed front matter block, whatever else it found, and it prints
/// every finding.
pub proof fn lemma_only_malformed_fails(findings: Seq<FindingView>, n_files: nat)
    ensures
        report_failure(findings) is Some <==> exists|i: int|
            0 <= i < findings.len() && #[trigger] findings[i] is Malformed,
        findings.len() > 0 ==> report_lines(findings, n_files).len() == findings.len() + 1,
{
    lemma_malformed_count(findings);
}

} // verus!
