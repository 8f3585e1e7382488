//! The QEMU integration-test harness's decisions: which manifest targets
//! are test images, which files in `tests/` nothing builds, how each run
//! is reported, and what the whole run amounts to.  Also the two text
//! filters the harness applies to cargo's and QEMU's output.

use vstd::prelude::*;
use vstd::string::StringSliceAdditionalSpecFns;
use crate::bytes::{append_bytes, bytes_eq, lit, slice_to_vec};
use crate::findings::{decimal, decimal_exec, join, join_exec};
use crate::frontmatter::concat3;
use crate::refs::{lemma_seqs_view_push, seqs_view};
use crate::sorted::lex_lt;
use crate::sorted::lex_less;
use crate::steps::{arch_name, passing_status, qemu_test_feature, Arch};
use crate::text::{find_exec, find_from, lemma_find_from_bounds};

verus! {

/// The decimal digits of `n`.
pub open spec fn decimal_u64(n: nat) -> Seq<u8> {
    decimal(n)
}

/// The decimal digits of `n`.
pub fn decimal_u64_exec(n: u64) -> (r: Vec<u8>)
    ensures
        r@ == decimal(n as nat),
    decreases n,
{
    if n < 10 {
        let mut v: Vec<u8> = Vec::new();
        v.push(48 + n as u8);
        assert(v@ =~= decimal(n as nat));
        v
    } else {
        let mut v = decimal_u64_exec(n / 10);
        v.push(48 + (n % 10) as u8);
        v
    }
}

/// A signed integer in decimal, `-` before a negative one.
pub open spec fn signed_decimal(n: int) -> Seq<u8> {
    if n < 0 {
        seq![45u8] + decimal((-n) as nat)
    } else {
        decimal(n as nat)
    }
}

pub fn signed_decimal_exec(n: i32) -> (r: Vec<u8>)
    ensures
        r@ == signed_decimal(n as int),
{
    if n < 0 {
        let m: u64 = (0 - (n as i64)) as u64;
        let mut v: Vec<u8> = Vec::new();
        v.push(45);
        append_bytes(&mut v, decimal_u64_exec(m).as_slice());
        v
    } else {
        decimal_u64_exec(n as u64)
    }
}

/// What a QEMU run that ended with `code` amounts to: only the arch's
/// passing status passes.
pub open spec fn exit_verdict(arch: Arch, code: i32) -> Result<(), Seq<u8>> {
    if code == passing_status(arch) {
        Ok(())
    } else {
        Err("qemu failed (exit ".spec_bytes() + signed_decimal(code as int) + ")".spec_bytes())
    }
}

/// What a QEMU run that ended with `code` amounts to.
pub fn exit_verdict_exec(arch: Arch, code: i32) -> (r: Result<(), Vec<u8>>)
    ensures
        match exit_verdict(arch, code) {
            Ok(()) => r is Ok,
            Err(m) => r matches Err(x) && x@ == m,
        },
{
    if code == arch.passing_status() {
        Ok(())
    } else {
        Err(concat3(lit("qemu failed (exit ").as_slice(), signed_decimal_exec(code).as_slice(), lit(")").as_slice()))
    }
}

/// The error of a guest killed for outliving its timeout.
pub fn timeout_message(secs: u64) -> (r: Vec<u8>)
    ensures
        r@ == "qemu timed out after ".spec_bytes() + decimal(secs as nat) + "s; killed".spec_bytes(),
{
    concat3(lit("qemu timed out after ").as_slice(), decimal_u64_exec(secs).as_slice(), lit("s; killed").as_slice())
}

/// A `[[test]]` target of an arch's manifest.
pub struct ManifestTest {
    pub name: Vec<u8>,
    pub required_features: Vec<Vec<u8>>,
}

/// The target asks for the QEMU test feature.
pub open spec fn is_image(t: ManifestTest) -> bool {
    seqs_view(t.required_features@).contains(qemu_test_feature())
}

/// The first position of `q[i..]` whose element sorts after `x`.
pub open spec fn upper_from(q: Seq<Seq<u8>>, x: Seq<u8>, i: int) -> int
    decreases q.len() - i,
{
    if i < 0 || i >= q.len() {
        q.len() as int
    } else if lex_lt(x, q[i]) {
        i
    } else {
        upper_from(q, x, i + 1)
    }
}

pub proof fn lemma_upper_from(q: Seq<Seq<u8>>, x: Seq<u8>, i: int)
    requires
        0 <= i <= q.len(),
    ensures
        i <= upper_from(q, x, i) <= q.len(),
    decreases q.len() - i,
{
    if i < q.len() && !lex_lt(x, q[i]) {
        lemma_upper_from(q, x, i + 1);
    }
}

/// `q` with `x` inserted after every element that does not sort after it:
/// one step of a stable insertion sort.
pub open spec fn sort_insert(q: Seq<Seq<u8>>, x: Seq<u8>) -> Seq<Seq<u8>> {
    q.insert(upper_from(q, x, 0), x)
}

/// The names of the test image targets, sorted.
pub open spec fn image_names(tests: Seq<ManifestTest>) -> Seq<Seq<u8>>
    decreases tests.len(),
{
    if tests.len() == 0 {
        Seq::empty()
    } else {
        let prev = image_names(tests.drop_last());
        if is_image(tests.last()) {
            sort_insert(prev, tests.last().name@)
        } else {
            prev
        }
    }
}

fn contains_feature(fs: &Vec<Vec<u8>>) -> (r: bool)
    ensures
        r == seqs_view(fs@).contains(qemu_test_feature()),
{
    let f = lit("qemu-test");
    let mut i: usize = 0;
    while i < fs.len()
        invariant
            i <= fs@.len(),
            f@ == qemu_test_feature(),
            forall|k: int| 0 <= k < i ==> fs@[k]@ != qemu_test_feature(),
        decreases fs@.len() - i,
    {
        if bytes_eq(fs[i].as_slice(), f.as_slice()) {
            assert(seqs_view(fs@)[i as int] == qemu_test_feature());
            return true;
        }
        i = i + 1;
    }
    assert forall|k: int| 0 <= k < seqs_view(fs@).len() implies seqs_view(fs@)[k] != qemu_test_feature() by {
        assert(seqs_view(fs@)[k] == fs@[k]@);
    }
    false
}

fn sort_insert_exec(v: &mut Vec<Vec<u8>>, x: Vec<u8>)
    ensures
        seqs_view(final(v)@) == sort_insert(seqs_view(old(v)@), x@),
{
    let ghost q = seqs_view(v@);
    proof {
        lemma_upper_from(q, x@, 0);
    }
    let mut i: usize = 0;
    while i < v.len() && !lex_less(x.as_slice(), v[i].as_slice())
        invariant
            i <= v@.len(),
            q == seqs_view(v@),
            upper_from(q, x@, i as int) == upper_from(q, x@, 0),
        decreases v@.len() - i,
    {
        i = i + 1;
    }
    let ghost xv = x@;
    v.insert(i, x);
    assert(seqs_view(v@) =~= q.insert(i as int, xv));
}

/// The targets of an arch's manifest that are QEMU test images: those that
/// ask for the test feature, by name, sorted.
pub fn test_names(tests: &Vec<ManifestTest>) -> (r: Vec<Vec<u8>>)
    ensures
        seqs_view(r@) == image_names(tests@),
{
    let mut out: Vec<Vec<u8>> = Vec::new();
    let mut i: usize = 0;
    assert(tests@.subrange(0, 0) =~= Seq::<ManifestTest>::empty());
    assert(seqs_view(out@) =~= Seq::<Seq<u8>>::empty());
    while i < tests.len()
        invariant
            i <= tests@.len(),
            seqs_view(out@) == image_names(tests@.subrange(0, i as int)),
        decreases tests@.len() - i,
    {
        proof {
            assert(tests@.subrange(0, i + 1).drop_last() =~= tests@.subrange(0, i as int));
            assert(tests@.subrange(0, i + 1).last() == tests@[i as int]);
        }
        if contains_feature(&tests[i].required_features) {
            let n = slice_to_vec(tests[i].name.as_slice(), 0, tests[i].name.len());
            assert(n@ =~= tests@[i as int].name@);
            sort_insert_exec(&mut out, n);
        }
        i = i + 1;
    }
    assert(tests@.subrange(0, tests@.len() as int) =~= tests@);
    out
}

/// The first manifest target named `stem`.
pub open spec fn stanza_named(tests: Seq<ManifestTest>, stem: Seq<u8>, i: int) -> Option<ManifestTest>
    decreases tests.len() - i,
{
    if i < 0 || i >= tests.len() {
        None
    } else if tests[i].name@ == stem {
        Some(tests[i])
    } else {
        stanza_named(tests, stem, i + 1)
    }
}

/// The files of `tests/` that nothing builds as an image, each with
/// whether it lacks a `[[test]]` entry altogether (otherwise the entry
/// lacks the feature), in the order the files are given.
pub open spec fn undeclared_in(stems: Seq<Seq<u8>>, tests: Seq<ManifestTest>) -> Seq<(Seq<u8>, bool)>
    decreases stems.len(),
{
    if stems.len() == 0 {
        Seq::empty()
    } else {
        let prev = undeclared_in(stems.drop_last(), tests);
        let stem = stems.last();
        match stanza_named(tests, stem, 0) {
            None => prev.push((stem, true)),
            Some(t) => if !is_image(t) {
                prev.push((stem, false))
            } else {
                prev
            },
        }
    }
}

/// The first position of `q[i..]` whose name sorts after `x`.
pub open spec fn upper_pair_from(q: Seq<(Seq<u8>, bool)>, x: Seq<u8>, i: int) -> int
    decreases q.len() - i,
{
    if i < 0 || i >= q.len() {
        q.len() as int
    } else if lex_lt(x, q[i].0) {
        i
    } else {
        upper_pair_from(q, x, i + 1)
    }
}

pub proof fn lemma_upper_pair_from(q: Seq<(Seq<u8>, bool)>, x: Seq<u8>, i: int)
    requires
        0 <= i <= q.len(),
    ensures
        i <= upper_pair_from(q, x, i) <= q.len(),
    decreases q.len() - i,
{
    if i < q.len() && !lex_lt(x, q[i].0) {
        lemma_upper_pair_from(q, x, i + 1);
    }
}

/// `q` sorted by name, stably.
pub open spec fn sort_pairs(q: Seq<(Seq<u8>, bool)>) -> Seq<(Seq<u8>, bool)>
    decreases q.len(),
{
    if q.len() == 0 {
        Seq::empty()
    } else {
        let s = sort_pairs(q.drop_last());
        s.insert(upper_pair_from(s, q.last().0, 0), q.last())
    }
}

pub open spec fn pairs_view(v: Seq<(Vec<u8>, bool)>) -> Seq<(Seq<u8>, bool)> {
    v.map_values(|p: (Vec<u8>, bool)| (p.0@, p.1))
}

fn stanza_named_exec(tests: &Vec<ManifestTest>, stem: &[u8]) -> (r: Option<usize>)
    ensures
        match stanza_named(tests@, stem@, 0) {
            Some(t) => r matches Some(i) && i < tests@.len() && tests@[i as int] == t,
            None => r is None,
        },
{
    let mut i: usize = 0;
    while i < tests.len()
        invariant
            i <= tests@.len(),
            stanza_named(tests@, stem@, i as int) == stanza_named(tests@, stem@, 0),
        decreases tests@.len() - i,
    {
        if bytes_eq(tests[i].name.as_slice(), stem) {
            return Some(i);
        }
        i = i + 1;
    }
    None
}

/// Files directly in `tests/` (given by stem) that no manifest entry
/// builds as an image, sorted by name: a forgotten `[[test]]` stanza is a
/// test that silently never runs.
pub fn undeclared_images(stems: &Vec<Vec<u8>>, tests: &Vec<ManifestTest>) -> (r: Vec<(Vec<u8>, bool)>)
    ensures
        pairs_view(r@) == sort_pairs(undeclared_in(seqs_view(stems@), tests@)),
{
    let ghost sv = seqs_view(stems@);
    let mut found: Vec<(Vec<u8>, bool)> = Vec::new();
    let mut i: usize = 0;
    assert(sv.subrange(0, 0) =~= Seq::<Seq<u8>>::empty());
    assert(pairs_view(found@) =~= Seq::<(Seq<u8>, bool)>::empty());
    while i < stems.len()
        invariant
            i <= stems@.len(),
            sv == seqs_view(stems@),
            pairs_view(found@) == undeclared_in(sv.subrange(0, i as int), tests@),
        decreases stems@.len() - i,
    {
        proof {
            assert(sv.subrange(0, i + 1).drop_last() =~= sv.subrange(0, i as int));
            assert(sv.subrange(0, i + 1).last() == stems@[i as int]@);
        }
        let ghost prev = pairs_view(found@);
        let stem = slice_to_vec(stems[i].as_slice(), 0, stems[i].len());
        assert(stem@ =~= stems@[i as int]@);
        match stanza_named_exec(tests, stem.as_slice()) {
            None => {
                let ghost s = stem@;
                found.push((stem, true));
                assert(pairs_view(found@) =~= prev.push((s, true)));
            },
            Some(k) => {
                if !contains_feature(&tests[k].required_features) {
                    let ghost s = stem@;
                    found.push((stem, false));
                    assert(pairs_view(found@) =~= prev.push((s, false)));
                }
            },
        }
        i = i + 1;
    }
    assert(sv.subrange(0, sv.len() as int) =~= sv);
    let ghost fv = pairs_view(found@);
    let mut sorted: Vec<(Vec<u8>, bool)> = Vec::new();
    let mut j: usize = 0;
    assert(fv.subrange(0, 0) =~= Seq::<(Seq<u8>, bool)>::empty());
    assert(pairs_view(sorted@) =~= Seq::<(Seq<u8>, bool)>::empty());
    while j < found.len()
        invariant
            j <= found@.len(),
            fv == pairs_view(found@),
            pairs_view(sorted@) == sort_pairs(fv.subrange(0, j as int)),
        decreases found@.len() - j,
    {
        proof {
            assert(fv.subrange(0, j + 1).drop_last() =~= fv.subrange(0, j as int));
            assert(fv.subrange(0, j + 1).last() == fv[j as int]);
        }
        let ghost q = pairs_view(sorted@);
        let name = slice_to_vec(found[j].0.as_slice(), 0, found[j].0.len());
        assert(name@ =~= fv[j as int].0);
        let flag = found[j].1;
        proof {
            lemma_upper_pair_from(q, name@, 0);
        }
        let mut p: usize = 0;
        while p < sorted.len() && !lex_less(name.as_slice(), sorted[p].0.as_slice())
            invariant
                p <= sorted@.len(),
                q == pairs_view(sorted@),
                upper_pair_from(q, name@, p as int) == upper_pair_from(q, name@, 0),
            decreases sorted@.len() - p,
        {
            p = p + 1;
        }
        let ghost nv = name@;
        sorted.insert(p, (name, flag));
        assert(pairs_view(sorted@) =~= q.insert(p as int, (nv, flag)));
        j = j + 1;
    }
    assert(fv.subrange(0, fv.len() as int) =~= fv);
    sorted
}

/// How an undeclared test file is reported.
pub open spec fn undeclared_line(arch: Arch, name: Seq<u8>, no_stanza: bool) -> Seq<u8> {
    if no_stanza {
        arch_name(arch) + ": tests/".spec_bytes() + name + ".rs has no [[test]] entry, so nothing builds it".spec_bytes()
    } else {
        arch_name(arch) + ": tests/".spec_bytes() + name
            + ".rs has a [[test]] entry, but is missing the qemu-test feature".spec_bytes()
    }
}

pub fn undeclared_line_exec(arch: Arch, name: &[u8], no_stanza: bool) -> (r: Vec<u8>)
    ensures
        r@ == undeclared_line(arch, name@, no_stanza),
{
    let mut r = concat3(arch.name().as_slice(), lit(": tests/").as_slice(), name);
    if no_stanza {
        append_bytes(&mut r, lit(".rs has no [[test]] entry, so nothing builds it").as_slice());
    } else {
        append_bytes(&mut r, lit(".rs has a [[test]] entry, but is missing the qemu-test feature").as_slice());
    }
    r
}

/// `<arch> <name>`: how a test image is named in reports.
pub open spec fn image_label(arch: Arch, name: Seq<u8>) -> Seq<u8> {
    arch_name(arch) + " ".spec_bytes() + name
}

pub fn image_label_exec(arch: Arch, name: &[u8]) -> (r: Vec<u8>)
    ensures
        r@ == image_label(arch, name@),
{
    concat3(arch.name().as_slice(), lit(" ").as_slice(), name)
}

/// How one image's run ended: its exit code, a timeout, or an error
/// starting or watching it.
pub enum RunResult {
    Exited(i32),
    TimedOut,
    Failed(Vec<u8>),
}

/// The line reported for one image's run, if any, and whether it failed.
pub open spec fn run_report(arch: Arch, name: Seq<u8>, result: RunResult, timeout_secs: u64, verbose: bool) -> (
    Option<Seq<u8>>,
    bool,
) {
    let label = image_label(arch, name);
    match result {
        RunResult::Exited(code) => if code == passing_status(arch) {
            (
                if verbose {
                    Some(label + ": ok".spec_bytes())
                } else {
                    None
                },
                false,
            )
        } else {
            (Some(label + ": FAILED (exit ".spec_bytes() + signed_decimal(code as int) + ")".spec_bytes()), true)
        },
        RunResult::TimedOut => (
            Some(label + ": TIMED OUT after ".spec_bytes() + decimal(timeout_secs as nat) + "s".spec_bytes()),
            true,
        ),
        RunResult::Failed(e) => (Some(label + ": FAILED (".spec_bytes() + e@ + ")".spec_bytes()), true),
    }
}

/// Report one image's run: the line to print, if any, and whether the
/// image failed.
pub fn run_report_exec(arch: Arch, name: &[u8], result: &RunResult, timeout_secs: u64, verbose: bool) -> (r: (
    Option<Vec<u8>>,
    bool,
))
    ensures
        ({
            let s = run_report(arch, name@, *result, timeout_secs, verbose);
            &&& r.1 == s.1
            &&& match s.0 {
                Some(l) => r.0 matches Some(x) && x@ == l,
                None => r.0 is None,
            }
        }),
{
    let label = image_label_exec(arch, name);
    match result {
        RunResult::Exited(code) => {
            if *code == arch.passing_status() {
                if verbose {
                    (Some(concat3(label.as_slice(), lit(": ok").as_slice(), &[])), false)
                } else {
                    (None, false)
                }
            } else {
                let mut l = concat3(label.as_slice(), lit(": FAILED (exit ").as_slice(), signed_decimal_exec(*code).as_slice());
                append_bytes(&mut l, lit(")").as_slice());
                (Some(l), true)
            }
        },
        RunResult::TimedOut => {
            let mut l = concat3(label.as_slice(), lit(": TIMED OUT after ").as_slice(), decimal_u64_exec(timeout_secs).as_slice());
            append_bytes(&mut l, lit("s").as_slice());
            (Some(l), true)
        },
        RunResult::Failed(e) => {
            let mut l = concat3(label.as_slice(), lit(": FAILED (").as_slice(), e.as_slice());
            append_bytes(&mut l, lit(")").as_slice());
            (Some(l), true)
        },
    }
}

/// The end of an integration run: the tally line when anything ran, and
/// the verdict.  Failed images and undeclared ones both fail the run: an
/// undeclared image looks as if it passed.
pub open spec fn run_summary(ran: nat, failed: Seq<Seq<u8>>, undeclared: Seq<Seq<u8>>) -> (
    Option<Seq<u8>>,
    Result<(), Seq<u8>>,
) {
    let tally = if ran > 0 {
        Some(
            "\n".spec_bytes() + decimal((ran - failed.len()) as nat) + " of ".spec_bytes() + decimal(ran)
                + " passed".spec_bytes(),
        )
    } else {
        None
    };
    let problems = (if failed.len() > 0 {
        seq!["failed: ".spec_bytes() + join(failed, ", ".spec_bytes())]
    } else {
        Seq::empty()
    }) + (if undeclared.len() > 0 {
        seq!["no [[test]] entry: ".spec_bytes() + join(undeclared, ", ".spec_bytes())]
    } else {
        Seq::empty()
    });
    (
        tally,
        if problems.len() == 0 {
            Ok(())
        } else {
            Err(join(problems, "; ".spec_bytes()))
        },
    )
}

/// Sum up an integration run.
pub fn run_summary_exec(ran: u64, failed: &Vec<Vec<u8>>, undeclared: &Vec<Vec<u8>>) -> (r: (
    Option<Vec<u8>>,
    Result<(), Vec<u8>>,
))
    requires
        failed@.len() <= ran,
    ensures
        ({
            let s = run_summary(ran as nat, seqs_view(failed@), seqs_view(undeclared@));
            &&& match s.0 {
                Some(l) => r.0 matches Some(x) && x@ == l,
                None => r.0 is None,
            }
            &&& match s.1 {
                Ok(()) => r.1 is Ok,
                Err(m) => r.1 matches Err(x) && x@ == m,
            }
        }),
{
    let tally = if ran > 0 {
        let passed: u64 = ran - failed.len() as u64;
        let mut l = concat3(lit("\n").as_slice(), decimal_u64_exec(passed).as_slice(), lit(" of ").as_slice());
        append_bytes(&mut l, decimal_u64_exec(ran).as_slice());
        append_bytes(&mut l, lit(" passed").as_slice());
        Some(l)
    } else {
        None
    };
    let mut problems: Vec<Vec<u8>> = Vec::new();
    assert(seqs_view(problems@) =~= Seq::<Seq<u8>>::empty());
    if failed.len() > 0 {
        let p = concat3(lit("failed: ").as_slice(), join_exec(failed, lit(", ").as_slice()).as_slice(), &[]);
        proof {
            lemma_seqs_view_push(problems@, p);
        }
        problems.push(p);
    }
    let ghost p1 = seqs_view(problems@);
    if undeclared.len() > 0 {
        let p = concat3(lit("no [[test]] entry: ").as_slice(), join_exec(undeclared, lit(", ").as_slice()).as_slice(), &[]);
        proof {
            lemma_seqs_view_push(problems@, p);
        }
        problems.push(p);
    }
    let ghost s = run_summary(ran as nat, seqs_view(failed@), seqs_view(undeclared@));
    assert(seqs_view(problems@) =~= (if seqs_view(failed@).len() > 0 {
        seq!["failed: ".spec_bytes() + join(seqs_view(failed@), ", ".spec_bytes())]
    } else {
        Seq::<Seq<u8>>::empty()
    }) + (if seqs_view(undeclared@).len() > 0 {
        seq!["no [[test]] entry: ".spec_bytes() + join(seqs_view(undeclared@), ", ".spec_bytes())]
    } else {
        Seq::<Seq<u8>>::empty()
    }));
    if problems.len() == 0 {
        (tally, Ok(()))
    } else {
        (tally, Err(join_exec(&problems, lit("; ").as_slice())))
    }
}

/// The value of the string field `key` in one line of cargo's JSON
/// messages: the text after `"key":"` up to the next unescaped `"`, each
/// `\` taken as "the next character as it is"; `None` when the key is
/// absent or the string does not end.
pub open spec fn json_value_from(s: Seq<u8>, i: int) -> Option<Seq<u8>>
    decreases s.len() - i,
{
    if i < 0 || i >= s.len() {
        None
    } else if s[i] == 34 {
        Some(Seq::empty())
    } else if s[i] == 92 {
        if i + 1 >= s.len() {
            None
        } else {
            match json_value_from(s, i + 2) {
                Some(rest) => Some(seq![s[i + 1]] + rest),
                None => None,
            }
        }
    } else {
        match json_value_from(s, i + 1) {
            Some(rest) => Some(seq![s[i]] + rest),
            None => None,
        }
    }
}

pub open spec fn json_string_field(line: Seq<u8>, key: Seq<u8>) -> Option<Seq<u8>> {
    let opening = seq![34u8] + key + seq![34u8, 58, 34];
    match find_from(line, opening, 0) {
        None => None,
        Some(p) => json_value_from(line, p + opening.len()),
    }
}

/// The value of a `"key":"value"` string field in one of cargo's JSON
/// messages, or `None` if the key is absent or does not hold a string.
pub fn json_string_field_exec(line: &[u8], key: &[u8]) -> (r: Option<Vec<u8>>)
    ensures
        match json_string_field(line@, key@) {
            Some(v) => r matches Some(x) && x@ == v,
            None => r is None,
        },
{
    let q: [u8; 1] = [34];
    let tail: [u8; 3] = [34, 58, 34];
    let opening = concat3(q.as_slice(), key, tail.as_slice());
    assert(opening@ =~= seq![34u8] + key@ + seq![34u8, 58, 34]);
    let n = line.len();
    proof {
        lemma_find_from_bounds(line@, opening@, 0);
    }
    let p = match find_exec(line, opening.as_slice(), 0) {
        None => return None,
        Some(p) => p,
    };
    let mut i = p + opening.len();
    let mut out: Vec<u8> = Vec::new();
    let ghost start = i as int;
    assert(json_string_field(line@, key@) == json_value_from(line@, start));
    loop
        invariant
            n == line@.len(),
            json_string_field(line@, key@) == json_value_from(line@, start),
            start <= i <= n + 1,
            json_value_from(line@, start) == match json_value_from(line@, i as int) {
                Some(rest) => Some(out@ + rest),
                None => None::<Seq<u8>>,
            },
        decreases n + 1 - i,
    {
        if i >= n {
            return None;
        }
        let c = line[i];
        if c == 34 {
            assert(out@ + Seq::<u8>::empty() =~= out@);
            return Some(out);
        }
        if c == 92 {
            if i + 1 >= n {
                return None;
            }
            let ghost o = out@;
            out.push(line[i + 1]);
            proof {
                if let Some(rest) = json_value_from(line@, i + 2) {
                    assert(o + (seq![line@[i + 1]] + rest) =~= out@ + rest);
                }
            }
            i = i + 2;
        } else {
            let ghost o = out@;
            out.push(c);
            proof {
                if let Some(rest) = json_value_from(line@, i + 1) {
                    assert(o + (seq![c] + rest) =~= out@ + rest);
                }
            }
            i = i + 1;
        }
    }
}

/// The end of a control sequence's parameter bytes: the first byte at or
/// after `j` that is `0x40` or above, or the end.
pub open spec fn csi_end(d: Seq<u8>, j: int) -> int
    decreases d.len() - j,
{
    if 0 <= j < d.len() && d[j] < 0x40 {
        csi_end(d, j + 1)
    } else {
        j
    }
}

pub proof fn lemma_csi_end(d: Seq<u8>, j: int)
    requires
        0 <= j <= d.len(),
    ensures
        j <= csi_end(d, j) <= d.len(),
    decreases d.len() - j,
{
    if j < d.len() && d[j] < 0x40 {
        lemma_csi_end(d, j + 1);
    }
}

/// `d[i..]` without terminal control sequences (`ESC [ ... final` and
/// `ESC c`), and the unfinished sequence at its end held back for the next
/// chunk.
pub open spec fn filter_from(d: Seq<u8>, i: int) -> (Seq<u8>, Seq<u8>)
    decreases d.len() - i,
{
    if i < 0 || i >= d.len() {
        (Seq::empty(), Seq::empty())
    } else if d[i] == 0x1b {
        if i + 1 < d.len() && d[i + 1] == 91 {
            proof {
                lemma_csi_end(d, i + 2);
            }
            let j = csi_end(d, i + 2);
            if j < d.len() {
                filter_from(d, j + 1)
            } else {
                (Seq::empty(), d.subrange(i, d.len() as int))
            }
        } else if i + 1 < d.len() && d[i + 1] == 99 {
            filter_from(d, i + 2)
        } else if i + 1 < d.len() {
            let rest = filter_from(d, i + 1);
            (seq![d[i]] + rest.0, rest.1)
        } else {
            (Seq::empty(), seq![d[i]])
        }
    } else {
        let rest = filter_from(d, i + 1);
        (seq![d[i]] + rest.0, rest.1)
    }
}

/// One chunk of guest output, the previous chunk's held-back bytes first,
/// without terminal reset and clear-screen sequences: what to print, and
/// what to hold back.
pub fn filter_escapes(carry: &[u8], chunk: &[u8]) -> (r: (Vec<u8>, Vec<u8>))
    requires
        carry@.len() + chunk@.len() <= usize::MAX,
    ensures
        r.0@ == filter_from(carry@ + chunk@, 0).0,
        r.1@ == filter_from(carry@ + chunk@, 0).1,
{
    let data = concat3(carry, chunk, &[]);
    let ghost d = data@;
    let n = data.len();
    let mut out: Vec<u8> = Vec::new();
    let mut i: usize = 0;
    assert(out@ + filter_from(d, 0).0 =~= filter_from(d, 0).0);
    loop
        invariant
            n == d.len(),
            d == data@,
            d == carry@ + chunk@,
            i <= n,
            out@ + filter_from(d, i as int).0 == filter_from(d, 0).0,
            filter_from(d, i as int).1 == filter_from(d, 0).1,
        decreases n - i,
    {
        if i >= n {
            assert(out@ + Seq::<u8>::empty() =~= out@);
            return (out, Vec::new());
        }
        let ghost o = out@;
        if data[i] == 0x1b {
            if i + 1 < n && data[i + 1] == 91 {
                proof {
                    lemma_csi_end(d, i + 2);
                }
                let mut j = i + 2;
                while j < n && data[j] < 0x40
                    invariant
                        n == d.len(),
                        d == data@,
                        i + 2 <= j <= n,
                        csi_end(d, j as int) == csi_end(d, i + 2),
                    decreases n - j,
                {
                    j = j + 1;
                }
                if j < n {
                    i = j + 1;
                } else {
                    let held = slice_to_vec(data.as_slice(), i, n);
                    assert(out@ + Seq::<u8>::empty() =~= out@);
                    return (out, held);
                }
            } else if i + 1 < n && data[i + 1] == 99 {
                i = i + 2;
            } else if i + 1 < n {
                out.push(data[i]);
                assert(o + (seq![d[i as int]] + filter_from(d, i + 1).0) =~= out@ + filter_from(d, i + 1).0);
                i = i + 1;
            } else {
                let mut held: Vec<u8> = Vec::new();
                held.push(data[i]);
                assert(held@ =~= seq![d[i as int]]);
                assert(out@ + Seq::<u8>::empty() =~= out@);
                return (out, held);
            }
        } else {
            out.push(data[i]);
            assert(o + (seq![d[i as int]] + filter_from(d, i + 1).0) =~= out@ + filter_from(d, i + 1).0);
            i = i + 1;
        }
    }
}

/// Whether `p` occurs anywhere in `s`.
pub open spec fn mentions(s: Seq<u8>, p: Seq<u8>) -> bool {
    find_from(s, p, 0) is Some
}

/// The test executable a line of cargo's JSON messages announces for the
/// test target `name`: the `executable` of a compiler artefact of that name
/// and of kind test.  Everything build-std compiles reports itself too, and
/// so do build scripts, which have an executable of their own; only the
/// test target answers to all three.
pub open spec fn test_executable(line: Seq<u8>, name: Seq<u8>) -> Option<Seq<u8>> {
    if mentions(line, "\"reason\":\"compiler-artifact\"".spec_bytes()) && mentions(
        line,
        "\"name\":\"".spec_bytes() + name + "\"".spec_bytes(),
    ) && mentions(line, "\"kind\":[\"test\"]".spec_bytes()) {
        json_string_field(line, "executable".spec_bytes())
    } else {
        None
    }
}

/// The test executable `line` announces for the test target `name`, if any.
pub fn test_executable_exec(line: &[u8], name: &[u8]) -> (r: Option<Vec<u8>>)
    ensures
        match test_executable(line@, name@) {
            Some(v) => r matches Some(x) && x@ == v,
            None => r is None,
        },
{
    let reason = lit("\"reason\":\"compiler-artifact\"");
    let named = concat3(lit("\"name\":\"").as_slice(), name, lit("\"").as_slice());
    let kind = lit("\"kind\":[\"test\"]");
    if find_exec(line, reason.as_slice(), 0).is_some() && find_exec(line, named.as_slice(), 0).is_some()
        && find_exec(line, kind.as_slice(), 0).is_some() {
        json_string_field_exec(line, lit("executable").as_slice())
    } else {
        None
    }
}

} // verus!
