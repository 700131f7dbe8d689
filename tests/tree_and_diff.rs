use repo_walker::diff::{diff_revspec, revision_or_head};
use repo_walker::pattern::Pattern;
use repo_walker::{print_file_content, DiffRecord, Origin, OutputFormatter, TreeChange};

fn formatter() -> OutputFormatter {
    OutputFormatter::new()
}

fn strings(v: &[&str]) -> Vec<String> {
    v.iter().map(|s| s.to_string()).collect()
}

fn tree_body(out: &str) -> String {
    let head = format!("\nDirectory Structure\n{}\n", "=".repeat(64));
    assert!(out.starts_with(&head));
    out[head.len()..].to_string()
}

#[test]
fn test_directory_structure() {
    let f = formatter().with_excludes(vec!["^target/".to_string()]).ok().expect("valid");
    let out = f.print_directory_structure(&strings(&["src/main.rs", "src/lib.rs", ".gitignore", "target/debug/main"]));
    assert!(out.contains("src/"), "src directory should exist");
    assert!(out.contains("main.rs"), "main.rs should exist");
    assert!(out.contains("lib.rs"), "lib.rs should exist");
    assert!(!out.contains("target"), "target directory should exist but be ignored");
}

#[test]
fn tree_is_sorted_by_component_and_drawn() {
    let f = formatter();
    let out = f.print_directory_structure(&strings(&[
        "src/main.rs",
        "README.md",
        "src/util/io.rs",
        "src/lib.rs",
        "a-b.txt",
        "a/c.txt",
        ".git/config",
        "src/.hidden.rs",
        "assets/logo.png",
    ]));
    let expected = "\
├── README.md
├── a/
│   └── c.txt
├── a-b.txt
└── src/
    ├── lib.rs
    ├── main.rs
    └── util/
        └── io.rs
";
    assert_eq!(tree_body(&out), expected);
}

#[test]
fn tree_leaves_out_filtered_files_and_their_empty_directories() {
    let f = formatter()
        .with_extensions(vec!["rs".to_string()])
        .with_excludes(vec!["^gen/".to_string()])
        .ok()
        .expect("valid");
    let out = f.print_directory_structure(&strings(&["docs/guide.md", "gen/api.rs", "src/main.rs", "src/main.rs"]));
    assert_eq!(tree_body(&out), "└── src/\n    └── main.rs\n");
    assert_eq!(tree_body(&f.print_directory_structure(&vec![])), "");
}

fn change_add(path: &str, oid: u8) -> TreeChange {
    TreeChange::Addition { path: path.as_bytes().to_vec(), entry_mode: 0o100644, oid: vec![oid; 20] }
}

#[test]
fn plan_puts_the_old_side_of_a_modification_first() {
    let f = formatter().with_extensions(vec!["txt".to_string()]);
    let changes = vec![
        change_add("hello.txt", 1),
        TreeChange::Modification {
            path: b"notes.txt".to_vec(),
            previous_entry_mode: 0o100644,
            previous_oid: vec![2; 20],
            entry_mode: 0o100644,
            oid: vec![3; 20],
        },
        TreeChange::Deletion { path: b"main.rs".to_vec(), entry_mode: 0o100644, oid: vec![4; 20] },
        TreeChange::Deletion { path: b"old.txt".to_vec(), entry_mode: 0o100644, oid: vec![5; 20] },
        TreeChange::Addition { path: vec![0xff, b'.', b't', b'x', b't'], entry_mode: 0o100644, oid: vec![6; 20] },
    ];
    let plan = f.plan_diff(&changes);
    let seen: Vec<(String, Origin, u8, Option<u8>)> = plan
        .iter()
        .map(|r: &DiffRecord| (r.path.clone(), r.origin, r.oid[0], r.previous_oid.as_ref().map(|o| o[0])))
        .collect();
    assert_eq!(
        seen,
        vec![
            ("hello.txt".to_string(), Origin::Addition, 1, None),
            ("notes.txt".to_string(), Origin::ModificationOld, 2, None),
            ("notes.txt".to_string(), Origin::ModificationNew, 3, Some(2)),
            ("old.txt".to_string(), Origin::Deletion, 5, None),
        ]
    );
    assert!(f.plan_diff(&vec![]).is_empty());
}

#[test]
fn two_revision_diff_scenario() {
    let f = formatter();
    let rev = diff_revspec(&Some("A".to_string()), &Some("B".to_string()));
    assert_eq!(rev, "A → B");
    let header = f.print_header("repo", &rev);
    assert!(header.contains("Repository Snapshot: repo @ A → B"));
    let plan = f.plan_diff(&vec![change_add("hello.txt", 0xab)]);
    assert_eq!(plan.len(), 1);
    let out = f.process_change(&plan[0], b"hi\n", &None);
    let expected = format!("OID: {}\n```diff\n+hi\n```\n\n", "ab".repeat(20));
    assert_eq!(out, expected);
}

#[test]
fn revisions_default_to_head() {
    assert_eq!(revision_or_head(&None), "HEAD");
    assert_eq!(revision_or_head(&Some("v1".to_string())), "v1");
    assert_eq!(diff_revspec(&None, &Some("HEAD~1".to_string())), "HEAD → HEAD~1");
}

#[test]
fn new_side_names_the_previous_object() {
    let f = formatter();
    let record = DiffRecord {
        path: "a.txt".to_string(),
        oid: vec![0x0f; 20],
        previous_oid: Some(vec![0xa0; 20]),
        origin: Origin::ModificationNew,
    };
    let out = f.process_change(&record, b"x", &None);
    assert_eq!(out, format!("OID: {}\nPrevious OID: {}\n```diff\n+x\n```\n\n", "0f".repeat(20), "a0".repeat(20)));
}

#[test]
fn blob_lines_are_prefixed_and_non_utf8_is_hex() {
    assert_eq!(print_file_content(b"one\ntwo\n", '-', &None), "-one\n-two\n");
    assert_eq!(print_file_content(b"a\n\xff\xfe\nb", '+', &None), "+a\n+[Non-UTF-8 data: fffe]\n+b\n");
    assert_eq!(print_file_content(b"", '+', &None), "");
    assert_eq!(print_file_content(b"\n", '+', &None), "+\n");
    let p = Pattern::new("^t").expect("valid");
    assert_eq!(print_file_content(b"one\ntwo\nthree", '+', &Some(p)), "+two\n+three\n");
}
