use repo_walker::pattern::Pattern;
use repo_walker::OutputFormatter;

fn formatter() -> OutputFormatter {
    OutputFormatter::new()
}

const LIB: &str = "pub fn add(a: i32, b: i32) -> i32 {\n    a + b\n}\n\n#[cfg(test)]\nmod tests {\n    use super::*;\n}\n";

#[test]
fn match_report_shows_window_and_groups() {
    let mut f = formatter();
    let p = Pattern::new("fn (a)(d+)").expect("valid");
    let out = f.print_file_contents_with_context("src/lib.rs", LIB, &p, 1);
    let window = "1   │ > pub fn add(a: i32, b: i32) -> i32 {\n2   │       a + b\n";
    let n = f.count_tokens(window);
    let expected = format!(
        "\n{}\nFile: src/lib.rs (≈{} tokens)\n{}\n{}Captured:\n  Group 1: a\n  Group 2: dd\n\n",
        "=".repeat(80),
        n,
        "=".repeat(80),
        window
    );
    assert_eq!(out, expected);
    assert_eq!(f.total_tokens(), n);
}

#[test]
fn pattern_scenario_reports_add() {
    let mut f = formatter();
    let p = Pattern::new("fn.*add").expect("valid");
    let out = f.print_walked_file("src/lib.rs", LIB, &Some(p), 3);
    assert!(out.contains("pub fn add"));
    assert!(out.contains("Captured:"));
    let p = Pattern::new("fn.*add").expect("valid");
    let main = f.print_walked_file("src/main.rs", "fn main() {\n    println!(\"Hello, world!\");\n}\n", &Some(p), 3);
    assert_eq!(main, "No matches found in this file.\n\n");
}

#[test]
fn zero_context_on_first_line_shows_only_that_line() {
    let mut f = formatter();
    let p = Pattern::new("^pub").expect("valid");
    let out = f.print_file_contents_with_context("src/lib.rs", LIB, &p, 0);
    assert!(out.contains("=\n1   │ > pub fn add(a: i32, b: i32) -> i32 {\nCaptured:\n"));
    assert!(!out.contains("2   │"));
}

#[test]
fn large_context_is_clamped_to_the_file() {
    let mut f = formatter();
    let p = Pattern::new("a \\+ b").expect("valid");
    let out = f.print_file_contents_with_context("src/lib.rs", "x\na + b\ny", &p, usize::MAX);
    assert!(out.contains("=\n1   │   x\n2   │ > a + b\n3   │   y\nCaptured:\n\n"));
}

#[test]
fn groups_that_did_not_take_part_are_skipped() {
    let mut f = formatter();
    let p = Pattern::new("(x)|(y)").expect("valid");
    let out = f.print_file_contents_with_context("f.txt", "y", &p, 0);
    assert!(out.ends_with("Captured:\n  Group 2: y\n\n"));
}

#[test]
fn invalid_pattern_is_refused() {
    assert!(Pattern::new("(").is_none());
    assert!(Pattern::new("a|b").is_some());
    assert_eq!(Pattern::new("a|b").expect("valid").as_str(), "a|b");
}
