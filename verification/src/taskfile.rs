//! One task file: its front matter, value-checked, and the prose
//! `## Status:` line of its body.

use vstd::prelude::*;
use vstd::string::StringSliceAdditionalSpecFns;
use crate::bytes::{lit, slice_to_vec};
use crate::frontmatter::{opt_view, parse_front_matter, spec_front_matter, FrontMatter};
use crate::refs::seqs_view;
use crate::text::{lines_exec, lines_of, occurs_at, occurs_at_exec, ws_tokens, ws_tokens_exec};

verus! {

pub struct TaskFileView {
    pub rel: Seq<u8>,
    pub in_done_dir: bool,
    pub id: Option<Seq<u8>>,
    pub status: Seq<u8>,
    pub depends_on: Seq<Seq<u8>>,
    pub commit: Option<Seq<u8>>,
    pub malformed: Seq<Seq<u8>>,
    pub header_lines: u32,
    pub prose_status: Option<Seq<u8>>,
    pub status_line: Option<Seq<u8>>,
    pub body: Seq<u8>,
}

/// One task file, front matter parsed and value-checked.
pub struct TaskFile {
    /// Path relative to `tasks/`: `foo.md` or `done/foo.md`.
    pub rel: Vec<u8>,
    pub in_done_dir: bool,
    /// `id:` if present; slug-named tasks key by filename instead.
    pub id: Option<Vec<u8>>,
    /// `status:`; empty when the block was malformed or missing.
    pub status: Vec<u8>,
    pub depends_on: Vec<Vec<u8>>,
    pub commit: Option<Vec<u8>>,
    /// Format errors in the front matter, if any.
    pub malformed: Vec<Vec<u8>>,
    /// The block's line count: body line numbers plus this plus two are
    /// file line numbers.
    pub header_lines: u32,
    /// The first word of the first `## Status:` line, if there is one.
    pub prose_status: Option<Vec<u8>>,
    /// That `## Status:` line, verbatim.
    pub status_line: Option<Vec<u8>>,
    /// The text after the closing fence.
    pub body: Vec<u8>,
}

impl View for TaskFile {
    type V = TaskFileView;

    open spec fn view(&self) -> TaskFileView {
        TaskFileView {
            rel: self.rel@,
            in_done_dir: self.in_done_dir,
            id: opt_view(self.id),
            status: self.status@,
            depends_on: seqs_view(self.depends_on@),
            commit: opt_view(self.commit),
            malformed: seqs_view(self.malformed@),
            header_lines: self.header_lines,
            prose_status: opt_view(self.prose_status),
            status_line: opt_view(self.status_line),
            body: self.body@,
        }
    }
}

pub open spec fn status_prefix() -> Seq<u8> {
    "## Status:".spec_bytes()
}

/// The first of `lines[i..]` that starts with `## Status:`.
pub open spec fn status_line_from(lines: Seq<Seq<u8>>, i: int) -> Option<Seq<u8>>
    decreases lines.len() - i,
{
    if i < 0 || i >= lines.len() {
        None
    } else if occurs_at(lines[i], status_prefix(), 0) {
        Some(lines[i])
    } else {
        status_line_from(lines, i + 1)
    }
}

pub proof fn lemma_status_line_starts(lines: Seq<Seq<u8>>, i: int)
    ensures
        status_line_from(lines, i) matches Some(l) ==> occurs_at(l, status_prefix(), 0),
    decreases lines.len() - i,
{
    if !(i < 0 || i >= lines.len()) && !occurs_at(lines[i], status_prefix(), 0) {
        lemma_status_line_starts(lines, i + 1);
    }
}

/// The first word after `## Status:` on such a line; empty when there is
/// none.
pub open spec fn prose_word(line: Seq<u8>) -> Seq<u8> {
    let toks = ws_tokens(line.subrange(status_prefix().len() as int, line.len() as int));
    if toks.len() == 0 {
        Seq::empty()
    } else {
        toks[0]
    }
}

/// The task file that a parsed block makes.  A malformed block's values are
/// dropped, so no check acts on them; its errors are kept.
pub open spec fn spec_task_file(
    fm: crate::frontmatter::FrontMatterView,
    rel: Seq<u8>,
    in_done_dir: bool,
) -> TaskFileView {
    let malformed = fm.errors.len() > 0;
    let sl = status_line_from(lines_of(fm.body), 0);
    TaskFileView {
        rel,
        in_done_dir,
        id: if malformed {
            None
        } else {
            fm.id
        },
        status: if malformed {
            Seq::empty()
        } else {
            match fm.status {
                Some(s) => s,
                None => Seq::empty(),
            }
        },
        depends_on: if malformed {
            Seq::empty()
        } else {
            fm.depends_on
        },
        commit: if malformed {
            None
        } else {
            fm.commit
        },
        malformed: fm.errors,
        header_lines: fm.header_lines,
        prose_status: match sl {
            Some(l) => Some(prose_word(l)),
            None => None,
        },
        status_line: sl,
        body: fm.body,
    }
}

/// A file that could not be parsed at all: every value empty, one error.
pub open spec fn spec_malformed_only(rel: Seq<u8>, in_done_dir: bool, detail: Seq<u8>) -> TaskFileView {
    TaskFileView {
        rel,
        in_done_dir,
        id: None,
        status: Seq::empty(),
        depends_on: Seq::empty(),
        commit: None,
        malformed: seq![detail],
        header_lines: 0,
        prose_status: None,
        status_line: None,
        body: Seq::empty(),
    }
}

/// The task file read from `text`: its front matter, or the error that it
/// has none.
pub open spec fn spec_task_from_text(rel: Seq<u8>, in_done_dir: bool, text: Seq<u8>) -> TaskFileView {
    match spec_front_matter(text) {
        Some(fm) => spec_task_file(fm, rel, in_done_dir),
        None => spec_malformed_only(rel, in_done_dir, "no front matter block".spec_bytes()),
    }
}

impl TaskFile {
    /// A file that could not even be parsed: every field empty, one
    /// malformed error, and all semantic checks skipped.
    pub fn malformed_only(rel: Vec<u8>, in_done_dir: bool, detail: Vec<u8>) -> (r: TaskFile)
        ensures
            r@ == spec_malformed_only(rel@, in_done_dir, detail@),
    {
        let ghost d = detail@;
        let mut malformed: Vec<Vec<u8>> = Vec::new();
        malformed.push(detail);
        let r = TaskFile {
            rel,
            in_done_dir,
            id: None,
            status: Vec::new(),
            depends_on: Vec::new(),
            commit: None,
            malformed,
            header_lines: 0,
            prose_status: None,
            status_line: None,
            body: Vec::new(),
        };
        assert(r@.malformed =~= seq![d]);
        assert(r@.depends_on =~= Seq::<Seq<u8>>::empty());
        assert(r@.status =~= Seq::<u8>::empty());
        assert(r@.body =~= Seq::<u8>::empty());
        r
    }
}

/// The first `## Status:` line of `body`, copied.
fn find_status_line(body: &[u8]) -> (r: Option<Vec<u8>>)
    ensures
        opt_view(r) == status_line_from(lines_of(body@), 0),
{
    let ls = lines_exec(body);
    let ghost lv = lines_of(body@);
    let pfx = lit("## Status:");
    let mut i: usize = 0;
    while i < ls.len()
        invariant
            i <= ls@.len(),
            ls@.len() == lv.len(),
            lv == lines_of(body@),
            pfx@ == status_prefix(),
            forall|m: int| 0 <= m < ls@.len() ==> (#[trigger] ls@[m])@ == lv[m],
            status_line_from(lv, i as int) == status_line_from(lv, 0),
        decreases ls@.len() - i,
    {
        if occurs_at_exec(ls[i].as_slice(), pfx.as_slice(), 0) {
            let l = slice_to_vec(ls[i].as_slice(), 0, ls[i].len());
            assert(l@ =~= lv[i as int]);
            assert(status_line_from(lv, i as int) == Some(lv[i as int]));
            return Some(l);
        }
        i = i + 1;
    }
    None
}

impl FrontMatter {
    /// The task file at `rel` that this block makes.
    pub fn into_task_file(self, rel: Vec<u8>, in_done_dir: bool) -> (r: TaskFile)
        ensures
            r@ == spec_task_file(self@, rel@, in_done_dir),
    {
        let malformed = self.errors.len() > 0;
        proof {
            lemma_status_line_starts(lines_of(self.body@), 0);
        }
        let status_line = find_status_line(self.body.as_slice());
        let prose_status = match &status_line {
            Some(l) => {
                let plen = lit("## Status:").len();
                assert(occurs_at(l@, status_prefix(), 0));
                let toks = ws_tokens_exec(slice_to_vec(l.as_slice(), plen, l.len()).as_slice());
                if toks.len() == 0 {
                    Some(Vec::new())
                } else {
                    Some(slice_to_vec(toks[0].as_slice(), 0, toks[0].len()))
                }
            },
            None => None,
        };
        let ghost sl = status_line_from(lines_of(self.body@), 0);
        assert(opt_view(prose_status) == match sl {
            Some(l) => Some(prose_word(l)),
            None => None,
        }) by {
            if let Some(l) = sl {
                assert(prose_status matches Some(p) && (p@ =~= prose_word(l)));
            }
        }
        let ghost fv = self@;
        let (id, status, depends_on, commit) = if malformed {
            (None, Vec::new(), Vec::new(), None)
        } else {
            (
                self.id,
                match self.status {
                    Some(s) => s,
                    None => Vec::new(),
                },
                self.depends_on,
                self.commit,
            )
        };
        let r = TaskFile {
            rel,
            in_done_dir,
            id,
            status,
            depends_on,
            commit,
            malformed: self.errors,
            header_lines: self.header_lines,
            prose_status,
            status_line,
            body: self.body,
        };
        assert(r@.status =~= spec_task_file(fv, rel@, in_done_dir).status);
        assert(r@.depends_on =~= spec_task_file(fv, rel@, in_done_dir).depends_on);
        r
    }
}

/// The task file read from `text` at `rel`: a malformed-only record when
/// the text has no front matter block.
pub fn task_from_text(rel: Vec<u8>, in_done_dir: bool, text: &[u8]) -> (r: TaskFile)
    ensures
        r@ == spec_task_from_text(rel@, in_done_dir, text@),
{
    match parse_front_matter(text) {
        Some(fm) => fm.into_task_file(rel, in_done_dir),
        None => TaskFile::malformed_only(rel, in_done_dir, lit("no front matter block")),
    }
}

} // verus!
