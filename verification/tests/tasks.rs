use r9::findings::Finding;
use r9::fix::{reconcile, FixError};
use r9::frontmatter::{parse_front_matter, FrontMatter};
use r9::refs::extract_refs;
use r9::taskfile::{task_from_text, TaskFile};
use r9::tasks::{
    begin_marker_bytes, end_marker_bytes, is_commit_hash, is_task_id, parse_entry_head,
    parse_todo_list, recover_commit_from_status_line,
};
use r9::tree::{file_findings, index_findings, Tree};

fn b(s: &str) -> Vec<u8> {
    s.as_bytes().to_vec()
}

fn st(v: &[u8]) -> String {
    String::from_utf8(v.to_vec()).unwrap()
}

fn fm(text: &str) -> FrontMatter {
    parse_front_matter(text.as_bytes()).expect("test text has a front matter block")
}

fn errors(f: &FrontMatter) -> Vec<String> {
    f.errors.iter().map(|e| st(e)).collect()
}

fn refs(body: &str) -> Vec<(u32, String)> {
    extract_refs(body.as_bytes()).into_iter().map(|(l, id)| (l, st(&id))).collect()
}

fn ids(body: &str) -> Vec<String> {
    refs(body).into_iter().map(|(_, id)| id).collect()
}

fn markers() -> (String, String) {
    (st(&begin_marker_bytes()), st(&end_marker_bytes()))
}

#[test]
fn front_matter_must_open_the_file() {
    assert!(parse_front_matter(b"# Title\nstatus: open\n---\nbody\n").is_none());
    assert!(parse_front_matter(b"\n---\nid: 1\nstatus: open\n---\n").is_none());
    assert!(parse_front_matter(b"  ---  \nid: 1\nstatus: open\n---\nbody\n").is_some());
}

#[test]
fn front_matter_well_formed() {
    let f = fm(
        "---\nid: 129\nstatus: open\nwave: 1\ndepends-on: 118, 121\ncommit: d773a37\nissue: 47\n---\n\n# body\n",
    );
    assert!(f.errors.is_empty(), "{:?}", errors(&f));
    assert_eq!(f.id, Some(b("129")));
    assert_eq!(f.status, Some(b("open")));
    assert_eq!(f.depends_on, vec![b("118"), b("121")]);
    assert_eq!(f.commit, Some(b("d773a37")));
    assert_eq!(f.body, b("\n# body\n"));
    assert_eq!(f.header_lines, 6);
}

#[test]
fn front_matter_omits_optional_keys() {
    let f = fm("---\nstatus: parked\n---\n");
    assert!(f.errors.is_empty(), "{:?}", errors(&f));
    assert_eq!(f.id, None);
    assert!(f.depends_on.is_empty());
}

#[test]
fn front_matter_rejects_unknown_key() {
    let f = fm("---\nstatus: open\npriority: high\n---\n");
    assert!(errors(&f).iter().any(|e| e.contains("unknown front matter key `priority`")));
}

#[test]
fn front_matter_rejects_duplicate_key() {
    let f = fm("---\nstatus: open\nstatus: done\n---\n");
    assert!(errors(&f).iter().any(|e| e.contains("duplicate front matter key `status`")));
}

#[test]
fn front_matter_requires_status() {
    let f = fm("---\nid: 1\n---\n");
    assert!(errors(&f).iter().any(|e| e.contains("no `status:`")));
}

#[test]
fn front_matter_rejects_bad_values() {
    let bad_status = fm("---\nstatus: maybe\n---\n");
    assert!(errors(&bad_status).iter().any(|e| e.contains("not open, parked or done")));
    let bad_id = fm("---\nstatus: open\nid: abc\n---\n");
    assert!(errors(&bad_id).iter().any(|e| e.contains("not a task id")));
    let bad_dep = fm("---\nstatus: open\ndepends-on: task\n---\n");
    assert!(errors(&bad_dep).iter().any(|e| e.contains("`depends-on` item `task`")));
    let bad_commit = fm("---\nstatus: done\ncommit: 12345\n---\n");
    assert!(errors(&bad_commit).iter().any(|e| e.contains("not a 7–40 character hex hash")));
}

#[test]
fn front_matter_id_allows_letter_suffix() {
    assert!(is_task_id(b"74b"));
    assert!(is_task_id(b"90c"));
    assert!(is_task_id(b"129"));
    assert!(!is_task_id(b"12a3"));
    assert!(!is_task_id(b""));
    assert!(!is_task_id(b"b"));
}

#[test]
fn no_front_matter_block() {
    assert!(parse_front_matter(b"# Tasks\n\nno header\n").is_none());
    assert!(parse_front_matter(b"---\nunterminated\n").is_none());
}

#[test]
fn status_prose_word_extraction() {
    for (text, want) in [
        ("## Status: open — wave 0", "open"),
        ("## Status: parked (spun off task 87; unpark trigger below)", "parked"),
        ("## Status: done (294b845)", "done"),
        ("## Status: done — server half (9b3920a)", "done"),
    ] {
        let f = fm(&format!("---\nstatus: open\n---\n{text}\n"));
        let t = f.into_task_file(b("x.md"), false);
        assert_eq!(t.prose_status, Some(b(want)));
    }
}

#[test]
fn refs_task_phrasings() {
    let body = "subsumed by task 119's ownership model\nSpun off task 88 (the console client API)\ntask-88 build\nlands with task 97\n";
    assert_eq!(ids(body), vec!["119", "88", "88", "97"]);
}

#[test]
fn refs_depends_on_list() {
    assert_eq!(ids("## Status: open — wave 6.  Depends on 118, 121"), vec!["118", "121"]);
}

#[test]
fn refs_successor_phrasing() {
    assert_eq!(ids("parked (successor to the done task 70)"), vec!["70"]);
}

#[test]
fn refs_skip_arc_ordinals() {
    let r = refs("Task 4 of 7 in the gates-hardening arc. Plan:\n");
    assert!(r.is_empty(), "{r:?}");
}

#[test]
fn refs_of_with_non_number_is_a_reference() {
    assert_eq!(ids("validation half of task 120\n"), vec!["120"]);
}

#[test]
fn refs_depends_on_task_is_not_double_counted() {
    assert_eq!(ids("## Status: open — wave 5.  Depends on task 118"), vec!["118"]);
}

#[test]
fn malformed_block_drops_values() {
    let f = fm("---\nid: 12\nstatus: open\npriority: high\n---\n");
    let t = f.into_task_file(b("x.md"), false);
    assert!(!t.malformed.is_empty());
    assert_eq!(t.id, None);
    assert!(t.status.is_empty());
}

#[test]
fn refs_plural_and_lettered_ids() {
    assert_eq!(ids("fold in task 9 and tasks 106\nTask 74b split\n"), vec!["9", "106", "74b"]);
}

#[test]
fn refs_case_insensitive_and_in_order() {
    assert_eq!(ids("Task 4 of 7 but see task 46\n"), vec!["46"]);
}

#[test]
fn refs_do_not_match_inside_words() {
    assert!(refs("tasking and taskschedule are not references").is_empty());
}

#[test]
fn refs_line_numbers_are_one_based() {
    assert_eq!(refs("nothing here\nsee task 124\n"), vec![(2, "124".to_string())]);
}

#[test]
fn commit_hash_shape() {
    assert!(is_commit_hash(b"d773a37"));
    assert!(is_commit_hash(b"4a74cda"));
    assert!(is_commit_hash(b"4144216"));
    assert!(!is_commit_hash(b"12345"));
    assert!(!is_commit_hash(b"ghijklm"));
}

#[test]
fn commit_recovery_from_status_line() {
    assert_eq!(recover_commit_from_status_line(&Some(b("## Status: done (294b845)"))), Some(b("294b845")));
    assert_eq!(
        recover_commit_from_status_line(&Some(b("## Status: done (d773a37, 2026-08-27)"))),
        Some(b("d773a37"))
    );
    assert_eq!(
        recover_commit_from_status_line(&Some(b("## Status: done — server half (9b3920a) + client API"))),
        Some(b("9b3920a"))
    );
    assert_eq!(recover_commit_from_status_line(&Some(b("## Status: done"))), None);
    assert_eq!(recover_commit_from_status_line(&None), None);
}

#[test]
fn todo_list_parses_entries_in_region_only() {
    let (bm, em) = markers();
    let text = format!(
        "# Open tasks\n\nnarrative mentions 99. [ghost](ghost.md) here\n\n{bm}\n## 1. Section\n\n102. [a.md](a.md) — a note\n103. [b.md](b.md) — another\n\n{em}\nfooter 104. [c.md](c.md)\n"
    );
    let listed = parse_todo_list(text.as_bytes());
    assert_eq!(listed, vec![(b("102"), b("a.md"), 8), (b("103"), b("b.md"), 9)]);
}

#[test]
fn todo_list_without_markers_yields_nothing() {
    assert!(parse_todo_list("102. [a.md](a.md) — unmarked".as_bytes()).is_empty());
}

#[test]
fn todo_list_done_dir_links() {
    let (bm, em) = markers();
    let text = format!("{bm}\n99. [done/gone.md](done/gone.md) — filed\n{em}\n");
    assert_eq!(parse_todo_list(text.as_bytes()), vec![(b("99"), b("done/gone.md"), 2)]);
}

#[test]
fn entry_head_parser() {
    assert_eq!(parse_entry_head("102. [a.md](a.md) — note".as_bytes()), Some((b("102"), b("a.md"))));
    assert_eq!(parse_entry_head(b"  74b. [b.md](b.md)"), Some((b("74b"), b("b.md"))));
    assert_eq!(
        parse_entry_head(b"99. [done/gone.md](done/gone.md)"),
        Some((b("99"), b("done/gone.md")))
    );
    assert_eq!(parse_entry_head(b"## 1. Section"), None);
    assert_eq!(parse_entry_head(b"narrative 99. not an entry"), None);
    assert_eq!(parse_entry_head(b"102. [the plan](plans/foo.md) says"), None);
}

#[test]
fn front_matter_trailing_space_fence_keeps_body() {
    let f = fm("---\nstatus: open\n--- \n\n## Status: done\n\nSee task 999.\n");
    assert!(f.errors.is_empty(), "{:?}", errors(&f));
    assert_eq!(f.body, b("\n## Status: done\n\nSee task 999.\n"));
}

#[test]
fn front_matter_crlf_body_is_correct() {
    let f = fm("---\r\nid: 1\r\nstatus: open\r\n---\r\n\r\n# body\r\nsee task 9\r\n");
    assert!(f.errors.is_empty(), "{:?}", errors(&f));
    assert_eq!(f.body, b("\r\n# body\r\nsee task 9\r\n"));
    let body = st(&f.body);
    assert_eq!(body.lines().collect::<Vec<_>>(), vec!["", "# body", "see task 9"]);
}

#[test]
fn front_matter_ending_on_the_fence_has_an_empty_body() {
    let f = fm("---\nid: 5\nstatus: open\n---");
    assert!(f.errors.is_empty(), "{:?}", errors(&f));
    assert_eq!(f.body, b(""));
}

#[test]
fn unresolved_front_matter_ref_renders_without_a_line() {
    let f = Finding::UnresolvedRef { file: b("a.md"), line: 0, id: b("99") };
    let r = st(&f.render());
    assert!(r.contains("a.md (front matter)"), "{r}");
    let g = Finding::UnresolvedRef { file: b("a.md"), line: 12, id: b("99") };
    let r = st(&g.render());
    assert!(r.contains("a.md:12"), "{r}");
}

#[test]
fn refs_depends_on_lettered_ids() {
    assert_eq!(refs("Depends on 74b, 80\n"), vec![(1, "74b".to_string()), (1, "80".to_string())]);
}

#[test]
fn refs_uppercase_suffix_is_not_read_as_the_bare_number() {
    assert_eq!(refs("see Task 74B for the layout\n"), vec![(1, "74B".to_string())]);
}

#[test]
fn refs_arc_ordinal_is_case_insensitive() {
    assert!(refs("Task 4 Of 7: the checkpoint\n").is_empty());
}

/// A tree made of in-memory files: `(rel, text)` for each task file, and
/// the text of `todo.md`.
fn tree_of(files: &[(&str, &str)], todo: &str) -> Tree {
    let tasks: Vec<TaskFile> = files
        .iter()
        .map(|(rel, text)| task_from_text(b(rel), rel.starts_with("done/"), text.as_bytes()))
        .collect();
    Tree::build(tasks, todo.as_bytes())
}

fn rendered(fs: &[Finding]) -> Vec<String> {
    fs.iter().map(|f| st(&f.render())).collect()
}

#[test]
fn unmarked_todo_is_one_finding_not_one_per_task() {
    let tree = tree_of(
        &[("a.md", "---\nid: 102\nstatus: open\n---\n\n# a\n")],
        "# Open tasks\n\n102. [a.md](a.md) — prose shape\n",
    );
    let r = rendered(&index_findings(&tree));
    assert!(r.iter().any(|x| x.contains("not reconcilable")), "{r:?}");
    assert!(!r.iter().any(|x| x.contains("not listed in todo.md")), "{r:?}");
}

#[test]
fn list_number_collision_names_both_claimants() {
    let (bm, em) = markers();
    let tree = tree_of(
        &[
            ("a.md", "---\nid: 12\nstatus: open\n---\n\n# a\n"),
            ("b.md", "---\nstatus: open\n---\n\n# b\n"),
        ],
        &format!("{bm}\n12. [b.md](b.md) — x\n{em}\n"),
    );
    let r = rendered(&index_findings(&tree));
    let hit = r.iter().any(|x| {
        x.contains("duplicate-id") && x.contains("12") && x.contains("todo.md:") && x.contains("a.md")
    });
    assert!(hit, "{r:?}");
}

fn fix_fixture() -> (Vec<(&'static str, &'static str)>, String) {
    let (bm, em) = markers();
    let todo = format!(
        "# Open tasks\n\nAudited against the tree at `abcd123`.\n\n{bm}\n## 1. Section\n\nIntro prose that must survive.\n\n10. [kept.md](kept.md) — kept task _with a note_\n11. [stale.md](stale.md) — done long ago\n\n{em}\nfooter\n"
    );
    let files = vec![
        ("kept.md", "---\nid: 10\nstatus: open\n---\n\n# Kept task\n"),
        ("stale.md", "---\nid: 11\nstatus: done\n---\n\n# Stale task\n"),
        ("unlisted.md", "---\nid: 12\nstatus: open\n---\n\n# Task 12: Unlisted task\n"),
        ("unlisted-noid.md", "---\nstatus: parked\n---\n\n# Unlisted, no id\n"),
    ];
    (files, todo)
}

#[test]
fn fix_preserves_narrative_and_drops_stale_entries() {
    let (bm, em) = markers();
    let (files, before) = fix_fixture();
    let tree = tree_of(&files, &before);
    let narrative_end = before.find(&bm).unwrap() + bm.len();
    let out = reconcile(&tree, before.as_bytes()).expect("fix completes");
    let after = st(&out.new_text.expect("the list changes"));
    assert_eq!(&after[..after.find(&bm).unwrap() + bm.len()], &before[..narrative_end]);
    assert!(!after.contains("stale.md"));
    assert!(after.contains("10. [kept.md](kept.md) — kept task _with a note_"));
    assert!(after.contains("## 1. Section"));
    assert!(after.contains("Intro prose that must survive."));
    assert!(after.contains("12. [unlisted.md](unlisted.md) — Unlisted task"));
    assert!(!after.contains("[unlisted-noid.md]"));
    assert!(after.ends_with(&format!("{em}\nfooter\n")));

    // A second run changes nothing: the region now matches the tree.
    let tree = tree_of(&files, &after);
    let again = reconcile(&tree, after.as_bytes()).expect("second fix completes");
    let twice = again.new_text.map(|t| st(&t)).unwrap_or_else(|| after.clone());
    assert_eq!(twice, after);
}

#[test]
fn fix_second_run_reports_nothing_when_every_task_has_an_id() {
    let (bm, em) = markers();
    let before = format!(
        "# t\n\n{bm}\n## 1. S\n\n30. [old.md](old.md) — old\n31. [here.md](here.md) — here\n{em}\n"
    );
    let files = vec![
        ("old.md", "---\nid: 30\nstatus: done\n---\n\n# old\n"),
        ("here.md", "---\nid: 31\nstatus: open\n---\n\n# here\n"),
        ("new.md", "---\nid: 32b\nstatus: parked\n---\n\n# Task 32b: brand new\n"),
    ];
    let tree = tree_of(&files, &before);
    let out = reconcile(&tree, before.as_bytes()).expect("fix completes");
    assert_eq!(out.dropped.iter().map(|d| st(d)).collect::<Vec<_>>(), vec!["30. old.md"]);
    assert_eq!(out.added.len(), 1);
    let after = st(&out.new_text.expect("the list changes"));
    assert!(after.contains("31. [here.md](here.md) — here\n\n32b. [new.md](new.md) — brand new\n"), "{after}");
    let tree = tree_of(&files, &after);
    let again = reconcile(&tree, after.as_bytes()).expect("second fix completes");
    assert!(again.new_text.is_none());
    assert!(again.dropped.is_empty());
    assert!(again.added.is_empty());
}

#[test]
fn fix_without_markers_is_an_error() {
    let todo = "# Open tasks\n\n10. [a.md](a.md)\n";
    let tree = tree_of(&[("a.md", "---\nid: 10\nstatus: open\n---\n\n# a\n")], todo);
    let err = reconcile(&tree, todo.as_bytes()).err().expect("no markers");
    assert_eq!(err, FixError::NoMarkers);
    assert!(st(&err.message()).contains("generated-region markers"));
}

#[test]
fn check_fixture_finds_the_drift() {
    let (bm, em) = markers();
    let tree = tree_of(
        &[
            ("open-ok.md", "---\nid: 10\nstatus: open\n---\n\n# ok\nsee task 11\n"),
            ("open-done.md", "---\nid: 11\nstatus: done\n---\n\n# done at top level\n"),
            ("open-unlisted.md", "---\nid: 12\nstatus: open\n---\n\n# unlisted\n"),
            (
                "done/landed.md",
                "---\nid: 11\nstatus: done\ncommit: d773a37\n---\n\n# landed\n## Status: done (d773a37)\n",
            ),
        ],
        &format!(
            "# Open tasks\n\nnarrative\n\n{bm}\n## 1. S\n\n10. [open-ok.md](open-ok.md) — fine\n11. [open-done.md](open-done.md) — stale\n\n{em}\n"
        ),
    );
    let mut all = file_findings(&tree);
    all.extend(index_findings(&tree));
    let r = rendered(&all);
    assert!(r.iter().any(|x| x.contains("open-done.md") && x.contains("misplaced")), "{r:?}");
    assert!(r.iter().any(|x| x.contains("duplicate-id") && x.contains("11")), "{r:?}");
    assert!(r.iter().any(|x| x.contains("open-unlisted.md") && x.contains("index-drift")), "{r:?}");
    assert!(r.iter().any(|x| x.contains("open-done.md") && x.contains("which is done")), "{r:?}");
    assert!(!r.iter().any(|x| x.contains("open-ok.md") && x.contains("unresolved-ref")), "{r:?}");
}

#[test]
fn moved_task_entry_reports_drift_not_duplicate() {
    let (bm, em) = markers();
    let tree = tree_of(
        &[("done/moved.md", "---\nid: 20\nstatus: done\ncommit: d773a37\n---\n\n# moved\n")],
        &format!("# t\n\n{bm}\n## 1. S\n\n20. [moved.md](moved.md) — stale\n\n{em}\n"),
    );
    let mut all = file_findings(&tree);
    all.extend(index_findings(&tree));
    assert!(all.iter().any(|f| matches!(f, Finding::IndexDrift { .. })), "{:?}", rendered(&all));
    assert!(!all.iter().any(|f| matches!(f, Finding::DuplicateId { .. })), "{:?}", rendered(&all));
}

#[test]
fn fix_subheader_ends_the_block_above_it() {
    let (bm, em) = markers();
    let todo = format!(
        "# t\n\n{bm}\n## 1. S\n\n40. [stale.md](stale.md) — gone\n### kept sub-section\nprose\n\n{em}\n"
    );
    let tree = tree_of(&[("stale.md", "---\nid: 40\nstatus: done\n---\n\n# stale\n")], &todo);
    let out = reconcile(&tree, todo.as_bytes()).expect("fix completes");
    let after = st(&out.new_text.expect("the stale entry goes"));
    assert!(!after.contains("stale.md"), "{after}");
    assert!(after.contains("### kept sub-section\nprose"), "{after}");
}

#[test]
fn check_fixture_clean_tree_reports_nothing() {
    let (bm, em) = markers();
    let tree = tree_of(
        &[("only.md", "---\nid: 10\nstatus: open\n---\n\n# only\n")],
        &format!("# Open tasks\n\n{bm}\n## 1. S\n\n10. [only.md](only.md) — it\n\n{em}\n"),
    );
    let mut all = file_findings(&tree);
    all.extend(index_findings(&tree));
    assert!(all.is_empty(), "{:?}", rendered(&all));
}

#[test]
fn malformed_messages_read_as_written() {
    let f = fm("---\nstatus: open\nwave: soon\nnot a pair\n---\n");
    assert_eq!(
        errors(&f),
        vec![
            "`wave: soon` is not a number".to_string(),
            "front matter line has no `key: value` separator: \"not a pair\"".to_string(),
        ]
    );
    let g = fm("---\nstatus: open\ntab\there \"q\"\n---\n");
    assert_eq!(
        errors(&g),
        vec!["front matter line has no `key: value` separator: \"tab\\there \\\"q\\\"\"".to_string()]
    );
}

#[test]
fn findings_render_each_class() {
    let cases = vec![
        (Finding::Malformed { file: b("a.md"), detail: b("bad") }, "malformed      a.md: bad"),
        (
            Finding::StatusMismatch { file: b("a.md"), front: b("open"), prose: b("done") },
            "status/prose   a.md: front matter says `open`, prose says `done`",
        ),
        (Finding::Misplaced { file: b("a.md"), detail: b("x") }, "misplaced      a.md: x"),
        (
            Finding::UnresolvedRef { file: b("a.md"), line: 7, id: b("5") },
            "unresolved-ref a.md:7: 'task 5' names no known task (id or list number)",
        ),
        (
            Finding::DuplicateId { id: b("3"), files: vec![b("a.md"), b("b.md")] },
            "duplicate-id   3: claimed by a.md, b.md",
        ),
        (
            Finding::MissingCommit { file: b("a.md"), candidate: b("abcdef0") },
            "missing-commit a.md: no `commit:` field, recoverable from its Status line (abcdef0)",
        ),
        (Finding::IndexDrift { detail: b("d") }, "index-drift    d"),
    ];
    for (f, want) in cases {
        assert_eq!(st(&f.render()), want);
    }
}

#[test]
fn unresolved_body_ref_carries_the_file_line() {
    let tree = tree_of(&[("a.md", "---\nid: 1\nstatus: open\n---\n\nsee task 99\n")], "");
    let r = rendered(&file_findings(&tree));
    assert_eq!(
        r,
        vec!["unresolved-ref a.md:6: 'task 99' names no known task (id or list number)".to_string()]
    );
}

#[test]
fn missing_commit_is_recovered_from_the_status_line() {
    let tree = tree_of(
        &[("done/x.md", "---\nid: 3\nstatus: done\n---\n\n## Status: done (abc1234)\n")],
        "",
    );
    let r = rendered(&file_findings(&tree));
    assert_eq!(
        r,
        vec!["missing-commit done/x.md: no `commit:` field, recoverable from its Status line (abc1234)"
            .to_string()]
    );
}

#[test]
fn known_ids_are_sorted_and_include_list_numbers() {
    let (bm, em) = markers();
    let tree = tree_of(
        &[("b.md", "---\nid: 9\nstatus: open\n---\n"), ("a.md", "---\nid: 10\nstatus: open\n---\n")],
        &format!("{bm}\n7. [c.md](c.md)\n9. [b.md](b.md)\n{em}\n"),
    );
    assert_eq!(tree.known_ids, vec![b("10"), b("7"), b("9")]);
    assert_eq!(tree.id_claims, vec![(b("10"), vec![b("a.md")]), (b("9"), vec![b("b.md")])]);
}
