use repo_walker::OutputFormatter;

const MAIN: &str = "fn main() { println!(\"Hello, world!\"); }";
const LIB: &str = "pub fn add(a: i32, b: i32) -> i32 { a + b }";

fn run(f: &mut OutputFormatter, files: &[(&str, &str)]) -> String {
    let mut out = f.print_header("repo", "current");
    let paths: Vec<String> = files.iter().map(|(p, _)| p.to_string()).collect();
    out.push_str(&f.print_directory_structure(&paths));
    for (path, contents) in files {
        out.push_str(&f.print_walked_file(path, contents, &None, 3));
    }
    out.push_str(&f.print_summary());
    out
}

const SAMPLE_MAIN: &str = "fn main() {\n    println!(\"Hello, world!\");\n}\n";
const SAMPLE_LIB: &str = "pub fn add(a: i32, b: i32) -> i32 {\n    a + b\n}\n\n#[cfg(test)]\nmod tests {\n    use super::*;\n    \n    #[test]\n    fn test_add() {\n        assert_eq!(add(2, 2), 4);\n    }\n}\n";

const COMMENTED: &str = "\n// Line comment\nfn main() {\n    /* Block comment */\n    println!(\"Hello\"); // End of line comment\n    /* Multi\n       line\n       comment */\n}\n";

fn formatter() -> OutputFormatter {
    OutputFormatter::new()
}

#[test]
fn test_basic_walk() {
    let mut f = formatter();
    let out = run(&mut f, &[("src/main.rs", SAMPLE_MAIN), ("src/lib.rs", SAMPLE_LIB)]);
    assert!(out.contains("Repository Snapshot"));
    assert!(out.contains("Directory Structure"));
    assert!(out.contains("src/main.rs"));
    assert!(out.contains("src/lib.rs"));
    assert!(out.contains("Analysis Summary"));
    assert!(out.contains("Total tokens processed:"));
}

#[test]
fn test_pattern_matching() {
    let mut f = formatter();
    let p = repo_walker::Pattern::new("fn.*add");
    let mut out = String::new();
    out.push_str(&f.print_walked_file("src/main.rs", SAMPLE_MAIN, &p, 3));
    out.push_str(&f.print_walked_file("src/lib.rs", SAMPLE_LIB, &p, 3));
    assert!(out.contains("pub fn add"));
    assert!(out.contains("Captured:"));
}

#[test]
fn test_extension_filter() {
    let mut f = formatter().with_extensions(vec!["rs".to_string()]);
    let stdout = run(
        &mut f,
        &[("src/main.rs", SAMPLE_MAIN), ("src/lib.rs", SAMPLE_LIB), ("README.md", "# Test Project\n\nThis is a test project.")],
    );
    assert!(stdout.contains("File: ") && stdout.contains("src/main.rs"));
    assert!(stdout.contains("File: ") && stdout.contains("src/lib.rs"));
    let sections: Vec<&str> = stdout.split("================================================================").collect();
    let file_sections: Vec<&str> =
        sections.iter().filter(|section| section.trim().starts_with("File: ")).copied().collect();
    assert!(file_sections.iter().all(|section| !section.contains("README.md")));
}

#[test]
fn test_strip_comments_cli() {
    let mut f = formatter().with_strip_comments(true);
    let out = run(&mut f, &[("test.rs", COMMENTED)]);
    for part in [
        "fn main()",
        "println!(\"Hello\");",
        "test.rs",
        "tokens",
        &"=".repeat(80),
        "Repository Snapshot",
        "Analysis Summary",
        "Total tokens processed",
        "GPT-4 context window sizes",
        "8K context",
        "32K context",
    ] {
        assert!(out.contains(part));
    }
    let mut f = formatter();
    let out = run(&mut f, &[("test.rs", COMMENTED)]);
    for part in ["// Line comment", "/* Block comment */", "// End of line comment", "fn main()", "println!(\"Hello\");"] {
        assert!(out.contains(part));
    }
}

#[test]
fn basic_walk_scenario() {
    let mut f = OutputFormatter::new();
    let main_tokens = f.count_tokens(MAIN);
    let lib_tokens = f.count_tokens(LIB);
    let out = run(&mut f, &[("src/main.rs", MAIN), ("src/lib.rs", LIB)]);
    assert!(out.contains("Repository Snapshot: repo @ current"));
    assert!(out.contains("Directory Structure"));
    assert!(out.contains("└── src/\n    ├── lib.rs\n    └── main.rs\n"));
    assert!(main_tokens > 0 && lib_tokens > 0);
    assert!(out.contains(&format!("File: src/main.rs (≈{} tokens)", main_tokens)));
    assert!(out.contains(&format!("File: src/lib.rs (≈{} tokens)", lib_tokens)));
    assert!(out.contains("Analysis Summary"));
    assert!(out.contains(&format!("Total tokens processed: {}\n", main_tokens + lib_tokens)));
}

#[test]
fn extension_filter_scenario() {
    let mut f = OutputFormatter::new().with_extensions(vec!["rs".to_string()]);
    let out = run(
        &mut f,
        &[("src/main.rs", MAIN), ("src/lib.rs", LIB), ("README.md", "# Test Project\n\nThis is a test project.")],
    );
    assert!(out.contains("File: src/main.rs"));
    assert!(out.contains("File: src/lib.rs"));
    assert!(!out.contains("README.md"));
    assert!(out.ends_with("File extensions: rs\n"));
}

#[test]
fn rerunning_gives_identical_output() {
    let files = [("src/main.rs", MAIN), ("src/lib.rs", LIB)];
    let mut a = OutputFormatter::new().with_strip_comments(true);
    let mut b = OutputFormatter::new().with_strip_comments(true);
    assert_eq!(run(&mut a, &files), run(&mut b, &files));
}
