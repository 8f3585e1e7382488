//! What the `tasks/` check reports, and how each report line reads.

use vstd::prelude::*;
use vstd::string::StringSliceAdditionalSpecFns;
use crate::bytes::{append_bytes, lit, slice_to_vec};
use crate::frontmatter::concat3;
use crate::refs::seqs_view;

verus! {

/// The decimal digits of `n`.
pub open spec fn decimal(n: nat) -> Seq<u8>
    decreases n,
{
    if n < 10 {
        seq![(48 + n) as u8]
    } else {
        decimal(n / 10).push((48 + n % 10) as u8)
    }
}

/// The decimal digits of `n`.
pub fn decimal_exec(n: u32) -> (r: Vec<u8>)
    ensures
        r@ == decimal(n as nat),
    decreases n,
{
    if n < 10 {
        let mut v: Vec<u8> = Vec::new();
        v.push(48 + n as u8);
        assert(v@ =~= decimal(n as nat));
        v
    } else {
        let mut v = decimal_exec(n / 10);
        v.push(48 + (n % 10) as u8);
        v
    }
}

/// The pieces of `s` joined by `sep`.
pub open spec fn join(s: Seq<Seq<u8>>, sep: Seq<u8>) -> Seq<u8>
    decreases s.len(),
{
    if s.len() == 0 {
        Seq::empty()
    } else if s.len() == 1 {
        s[0]
    } else {
        join(s.drop_last(), sep) + sep + s.last()
    }
}

/// The pieces of `s` joined by `sep`.
pub fn join_exec(s: &Vec<Vec<u8>>, sep: &[u8]) -> (r: Vec<u8>)
    ensures
        r@ == join(seqs_view(s@), sep@),
{
    let ghost q = seqs_view(s@);
    let mut out: Vec<u8> = Vec::new();
    let mut i: usize = 0;
    assert(q.subrange(0, 0) =~= Seq::<Seq<u8>>::empty());
    while i < s.len()
        invariant
            i <= s@.len(),
            q == seqs_view(s@),
            out@ == join(q.subrange(0, i as int), sep@),
        decreases s@.len() - i,
    {
        proof {
            assert(q.subrange(0, i + 1).drop_last() =~= q.subrange(0, i as int));
            assert(q.subrange(0, i + 1).last() == q[i as int]);
            assert(q[i as int] == s@[i as int]@);
        }
        if i > 0 {
            append_bytes(&mut out, sep);
        } else {
            assert(q.subrange(0, 1) =~= seq![q[0]]);
        }
        append_bytes(&mut out, s[i].as_slice());
        i = i + 1;
    }
    assert(q.subrange(0, q.len() as int) =~= q);
    out
}

pub enum FindingView {
    Malformed { file: Seq<u8>, detail: Seq<u8> },
    StatusMismatch { file: Seq<u8>, front: Seq<u8>, prose: Seq<u8> },
    Misplaced { file: Seq<u8>, detail: Seq<u8> },
    UnresolvedRef { file: Seq<u8>, line: u32, id: Seq<u8> },
    DuplicateId { id: Seq<u8>, files: Seq<Seq<u8>> },
    MissingCommit { file: Seq<u8>, candidate: Seq<u8> },
    IndexDrift { detail: Seq<u8> },
}

/// A finding.  `Malformed` is the only class that fails the run.
pub enum Finding {
    Malformed { file: Vec<u8>, detail: Vec<u8> },
    StatusMismatch { file: Vec<u8>, front: Vec<u8>, prose: Vec<u8> },
    Misplaced { file: Vec<u8>, detail: Vec<u8> },
    /// `line` 0 marks a front matter reference, which has no line.
    UnresolvedRef { file: Vec<u8>, line: u32, id: Vec<u8> },
    DuplicateId { id: Vec<u8>, files: Vec<Vec<u8>> },
    MissingCommit { file: Vec<u8>, candidate: Vec<u8> },
    IndexDrift { detail: Vec<u8> },
}

impl View for Finding {
    type V = FindingView;

    open spec fn view(&self) -> FindingView {
        match self {
            Finding::Malformed { file, detail } => FindingView::Malformed {
                file: file@,
                detail: detail@,
            },
            Finding::StatusMismatch { file, front, prose } => FindingView::StatusMismatch {
                file: file@,
                front: front@,
                prose: prose@,
            },
            Finding::Misplaced { file, detail } => FindingView::Misplaced {
                file: file@,
                detail: detail@,
            },
            Finding::UnresolvedRef { file, line, id } => FindingView::UnresolvedRef {
                file: file@,
                line: *line,
                id: id@,
            },
            Finding::DuplicateId { id, files } => FindingView::DuplicateId {
                id: id@,
                files: seqs_view(files@),
            },
            Finding::MissingCommit { file, candidate } => FindingView::MissingCommit {
                file: file@,
                candidate: candidate@,
            },
            Finding::IndexDrift { detail } => FindingView::IndexDrift { detail: detail@ },
        }
    }
}

/// The views of a list of findings.
pub open spec fn findings_view(v: Seq<Finding>) -> Seq<FindingView> {
    v.map_values(|f: Finding| f@)
}

pub proof fn lemma_findings_push(v: Seq<Finding>, f: Finding)
    ensures
        findings_view(v.push(f)) == findings_view(v).push(f@),
{
    assert(findings_view(v.push(f)) =~= findings_view(v).push(f@));
}

pub fn push_finding(out: &mut Vec<Finding>, f: Finding)
    ensures
        findings_view(final(out)@) == findings_view(old(out)@).push(f@),
{
    proof {
        lemma_findings_push(out@, f);
    }
    out.push(f);
}

/// A finding's report line.
pub open spec fn render_spec(f: FindingView) -> Seq<u8> {
    match f {
        FindingView::Malformed { file, detail } => "malformed      ".spec_bytes() + file + ": ".spec_bytes()
            + detail,
        FindingView::StatusMismatch { file, front, prose } => "status/prose   ".spec_bytes() + file
            + ": front matter says `".spec_bytes() + front + "`, prose says `".spec_bytes() + prose
            + "`".spec_bytes(),
        FindingView::Misplaced { file, detail } => "misplaced      ".spec_bytes() + file + ": ".spec_bytes()
            + detail,
        FindingView::UnresolvedRef { file, line, id } => {
            let loc = if line == 0 {
                file + " (front matter)".spec_bytes()
            } else {
                file + ":".spec_bytes() + decimal(line as nat)
            };
            "unresolved-ref ".spec_bytes() + loc + ": 'task ".spec_bytes() + id
                + "' names no known task (id or list number)".spec_bytes()
        },
        FindingView::DuplicateId { id, files } => "duplicate-id   ".spec_bytes() + id
            + ": claimed by ".spec_bytes() + join(files, ", ".spec_bytes()),
        FindingView::MissingCommit { file, candidate } => "missing-commit ".spec_bytes() + file
            + ": no `commit:` field, recoverable from its Status line (".spec_bytes() + candidate
            + ")".spec_bytes(),
        FindingView::IndexDrift { detail } => "index-drift    ".spec_bytes() + detail,
    }
}

impl Finding {
    /// The finding's report line.
    pub fn render(&self) -> (r: Vec<u8>)
        ensures
            r@ == render_spec(self@),
    {
        match self {
            Finding::Malformed { file, detail } => {
                let r = concat3(lit("malformed      ").as_slice(), file.as_slice(), lit(": ").as_slice());
                let mut r = r;
                append_bytes(&mut r, detail.as_slice());
                r
            },
            Finding::StatusMismatch { file, front, prose } => {
                let mut r = concat3(
                    lit("status/prose   ").as_slice(),
                    file.as_slice(),
                    lit(": front matter says `").as_slice(),
                );
                append_bytes(&mut r, front.as_slice());
                append_bytes(&mut r, lit("`, prose says `").as_slice());
                append_bytes(&mut r, prose.as_slice());
                append_bytes(&mut r, lit("`").as_slice());
                r
            },
            Finding::Misplaced { file, detail } => {
                let mut r = concat3(lit("misplaced      ").as_slice(), file.as_slice(), lit(": ").as_slice());
                append_bytes(&mut r, detail.as_slice());
                r
            },
            Finding::UnresolvedRef { file, line, id } => {
                let loc = if *line == 0 {
                    concat3(file.as_slice(), lit(" (front matter)").as_slice(), &[])
                } else {
                    concat3(file.as_slice(), lit(":").as_slice(), decimal_exec(*line).as_slice())
                };
                let mut r = concat3(lit("unresolved-ref ").as_slice(), loc.as_slice(), lit(": 'task ").as_slice());
                append_bytes(&mut r, id.as_slice());
                append_bytes(&mut r, lit("' names no known task (id or list number)").as_slice());
                proof {
                    if *line == 0 {
                        assert(loc@ =~= file@ + " (front matter)".spec_bytes());
                    }
                }
                r
            },
            Finding::DuplicateId { id, files } => {
                let mut r = concat3(lit("duplicate-id   ").as_slice(), id.as_slice(), lit(": claimed by ").as_slice());
                append_bytes(&mut r, join_exec(files, lit(", ").as_slice()).as_slice());
                r
            },
            Finding::MissingCommit { file, candidate } => {
                let mut r = concat3(
                    lit("missing-commit ").as_slice(),
                    file.as_slice(),
                    lit(": no `commit:` field, recoverable from its Status line (").as_slice(),
                );
                append_bytes(&mut r, candidate.as_slice());
                append_bytes(&mut r, lit(")").as_slice());
                r
            },
            Finding::IndexDrift { detail } => {
                concat3(lit("index-drift    ").as_slice(), detail.as_slice(), &[])
            },
        }
    }

    /// Whether this is the one class of finding that fails the run.
    pub fn is_malformed(&self) -> (r: bool)
        ensures
            r == (self@ is Malformed),
    {
        match self {
            Finding::Malformed { .. } => true,
            _ => false,
        }
    }
}

/// The number of `Malformed` findings in `fs`.
pub open spec fn malformed_count(fs: Seq<FindingView>) -> nat
    decreases fs.len(),
{
    if fs.len() == 0 {
        0
    } else {
        malformed_count(fs.drop_last()) + if fs.last() is Malformed {
            1nat
        } else {
            0nat
        }
    }
}

/// How many of `findings` are `Malformed`.
pub fn count_malformed(findings: &Vec<Finding>) -> (r: usize)
    ensures
        r == malformed_count(findings_view(findings@)),
{
    let ghost q = findings_view(findings@);
    let mut n: usize = 0;
    let mut i: usize = 0;
    assert(q.subrange(0, 0) =~= Seq::<FindingView>::empty());
    while i < findings.len()
        invariant
            i <= findings@.len(),
            q == findings_view(findings@),
            n == malformed_count(q.subrange(0, i as int)),
            n <= i,
        decreases findings@.len() - i,
    {
        proof {
            assert(q.subrange(0, i + 1).drop_last() =~= q.subrange(0, i as int));
            assert(q.subrange(0, i + 1).last() == findings@[i as int]@);
        }
        if findings[i].is_malformed() {
            n = n + 1;
        }
        i = i + 1;
    }
    assert(q.subrange(0, q.len() as int) =~= q);
    n
}

} // verus!
