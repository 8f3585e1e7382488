use r9::fix::reconcile;
use r9::report::{check_findings, fix_outcome, fix_preamble, report};
use r9::taskfile::task_from_text;
use r9::tree::{file_findings, Tree};

fn b(s: &str) -> Vec<u8> {
    s.as_bytes().to_vec()
}

fn strs(v: &[Vec<u8>]) -> Vec<String> {
    v.iter().map(|x| String::from_utf8(x.clone()).unwrap()).collect()
}

const BEGIN: &str = "<!-- xtask:tasks begin -->";
const END: &str = "<!-- xtask:tasks end -->";

#[test]
fn known_ids_are_front_matter_ids_and_list_numbers_sorted() {
    let tasks = vec![
        task_from_text(b("b.md"), false, b"---\nid: 30\nstatus: open\n---\n"),
        task_from_text(b("a.md"), false, b"---\nid: 12\nstatus: open\n---\n"),
        task_from_text(b("c.md"), false, b"---\nid: 12\nstatus: open\n---\n"),
    ];
    let todo = format!("{BEGIN}\n7. [x.md](x.md) — listed\n30. [b.md](b.md) — b\n{END}\n");
    let tree = Tree::build(tasks, todo.as_bytes());
    assert_eq!(strs(&tree.known_ids), vec!["12", "30", "7"]);
    assert_eq!(tree.id_claims.len(), 2);
    assert_eq!(tree.id_claims[0].0, b("12"));
    assert_eq!(strs(&tree.id_claims[0].1), vec!["a.md", "c.md"]);
    assert_eq!(tree.id_claims[1].0, b("30"));
}

#[test]
fn only_a_malformed_block_fails_the_check() {
    let todo = format!("{BEGIN}\n5. [ok.md](ok.md) — ok\n{END}\n");
    let clean = Tree::build(
        vec![task_from_text(b("ok.md"), false, b"---\nid: 5\nstatus: open\n---\n\n# ok\n")],
        todo.as_bytes(),
    );
    let out = report(&check_findings(&clean), clean.tasks.len());
    assert_eq!(strs(&out.lines), vec!["xtask tasks: tasks/ is consistent (1 files checked)"]);
    assert_eq!(out.failure, None);

    let drifting = Tree::build(
        vec![task_from_text(b("ok.md"), false, b"---\nid: 5\nstatus: open\n---\n\nsee task 99\n")],
        todo.as_bytes(),
    );
    let out = report(&check_findings(&drifting), drifting.tasks.len());
    assert_eq!(out.lines[0], b("xtask tasks: 1 finding(s) in tasks/"));
    assert!(String::from_utf8(out.lines[1].clone()).unwrap().starts_with("  unresolved-ref ok.md:6"));
    assert_eq!(out.failure, None, "drift is reported, not a failure");

    let broken = Tree::build(
        vec![task_from_text(b("bad.md"), false, b"---\nstatus: open\npriority: high\n---\n")],
        todo.as_bytes(),
    );
    let findings = check_findings(&broken);
    let out = report(&findings, broken.tasks.len());
    assert_eq!(out.failure, Some(b("1 malformed front matter block(s)")));
    let (lines, failure) = fix_preamble(&file_findings(&broken));
    assert_eq!(lines[0], b("xtask tasks: 1 malformed front matter block(s); not touching todo.md"));
    assert_eq!(failure, Some(b("1 malformed front matter block(s)")));
}

#[test]
fn fix_reports_what_it_changed() {
    let todo = format!("# Narrative\n{BEGIN}\n## Open\n8. [gone.md](gone.md) — gone\n{END}\ntail\n");
    let tree = Tree::build(
        vec![task_from_text(b("new.md"), false, b"---\nid: 9\nstatus: open\n---\n\n# Task 9: New thing\n")],
        todo.as_bytes(),
    );
    let rec = reconcile(&tree, todo.as_bytes()).unwrap();
    let new_text = String::from_utf8(rec.new_text.clone().unwrap()).unwrap();
    assert!(new_text.starts_with(&format!("# Narrative\n{BEGIN}\n## Open\n")));
    assert!(new_text.ends_with(&format!("{END}\ntail\n")));
    assert!(new_text.contains("9. [new.md](new.md) — New thing"));
    assert_eq!(
        strs(&fix_outcome(&rec)),
        vec![
            "xtask tasks: regenerated todo.md's list region",
            "  dropped: 8. gone.md",
            "  added:   9. new.md (unplaced — move it into a section)",
        ]
    );
    let (lines, failure) = fix_preamble(&file_findings(&tree));
    assert!(lines.is_empty());
    assert_eq!(failure, None);
    let again = Tree::build(
        vec![task_from_text(b("new.md"), false, b"---\nid: 9\nstatus: open\n---\n\n# Task 9: New thing\n")],
        new_text.as_bytes(),
    );
    let rec = reconcile(&again, new_text.as_bytes()).unwrap();
    assert_eq!(rec.new_text, None);
    assert_eq!(strs(&fix_outcome(&rec)), vec!["xtask tasks: todo.md's list already matches the tree"]);
}
