use repo_walker::output::{countable_text, BLANK_RUN_LIMIT};
use repo_walker::{configure, Args};
use repo_walker::filter::path_extension;
use repo_walker::{file_extension_matches, is_likely_binary, OutputFormatter};

fn formatter() -> OutputFormatter {
    OutputFormatter::new()
}

#[test]
fn test_file_extension_matches() {
    let extensions = vec!["rs".to_string(), "go".to_string()];
    assert!(file_extension_matches("test.rs", &extensions));
    assert!(!file_extension_matches("test.js", &extensions));
}

#[test]
fn extension_matching_ignores_case() {
    let extensions = vec!["rs".to_string()];
    assert!(file_extension_matches("src/MAIN.RS", &extensions));
    assert!(file_extension_matches("a/b.Rs", &vec!["RS".to_string()]));
}

#[test]
fn path_without_extension_matches_nothing() {
    let extensions = vec!["".to_string(), "rs".to_string()];
    assert!(!file_extension_matches("Makefile", &extensions));
    assert!(!file_extension_matches(".gitignore", &extensions));
    assert!(!file_extension_matches("dir.rs/Makefile", &extensions));
}

#[test]
fn extension_is_taken_after_the_last_dot_of_the_name() {
    assert_eq!(path_extension("archive.tar.gz"), "gz");
    assert_eq!(path_extension("src/.env"), "");
    assert_eq!(path_extension("src/.env.local"), "local");
    assert_eq!(path_extension("a.b/c"), "");
}

#[test]
fn binary_suffixes_are_recognised() {
    assert!(is_likely_binary("logo.png"));
    assert!(is_likely_binary("docs/Report.PDF"));
    assert!(is_likely_binary("data/app.sqlite"));
    assert!(is_likely_binary("x.7z"));
    assert!(!is_likely_binary("main.rs"));
    assert!(!is_likely_binary("png"));
    assert!(!is_likely_binary("lib.wasm"));
}

#[test]
fn exclude_wins_over_an_allowed_extension() {
    let f = formatter()
        .with_extensions(vec!["rs".to_string()])
        .with_excludes(vec!["generated".to_string()])
        .ok()
        .expect("valid exclude");
    assert!(f.should_include_file("src/main.rs"));
    assert!(!f.should_include_file("src/generated/api.rs"));
    assert!(!f.should_include_file("README.md"));
}

#[test]
fn binary_files_are_filtered_without_an_extension_list() {
    let f = formatter();
    assert!(!f.should_include_file("logo.png"));
    assert!(f.should_include_file("README.md"));
}

#[test]
fn invalid_exclude_is_reported() {
    match formatter().with_excludes(vec!["ok".to_string(), "(".to_string()]) {
        Ok(_) => panic!("an unbalanced parenthesis is not a valid pattern"),
        Err(bad) => assert_eq!(bad, "("),
    }
}

#[test]
fn long_runs_of_white_space_are_not_counted() {
    assert!(countable_text("fn main() {\n    x\n}"));
    assert!(countable_text(&" ".repeat(BLANK_RUN_LIMIT - 1)));
    let long = format!("{}a", " \n\t".repeat(BLANK_RUN_LIMIT / 3 + 1));
    assert!(!countable_text(&long));
    let mut f = formatter();
    assert!(f.print_file_contents("blank.txt", &long).is_none());
    assert_eq!(f.total_tokens(), 0);
}

#[test]
fn configuration_errors_name_the_pattern() {
    let args = |pattern: Option<&str>, excludes: Option<Vec<&str>>| Args {
        path: ".".to_string(),
        pattern: pattern.map(|p| p.to_string()),
        extensions: None,
        context_lines: 3,
        git_from: None,
        git_to: None,
        excludes: excludes.map(|v| v.iter().map(|s| s.to_string()).collect()),
        strip_comments: false,
    };
    assert!(configure(&args(Some("fn.*add"), Some(vec!["target"]))).is_ok());
    match configure(&args(Some("("), Some(vec!["ok", "[z"]))) {
        Err(e) => assert_eq!(e.message(), "invalid exclude pattern: [z"),
        Ok(_) => panic!("the exclude pattern is invalid"),
    }
    match configure(&args(Some("("), None)) {
        Err(e) => assert_eq!(e.message(), "invalid pattern: ("),
        Ok(_) => panic!("the pattern is invalid"),
    }
}
