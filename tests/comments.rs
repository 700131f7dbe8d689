use repo_walker::parser::remove_comment_spans;
use repo_walker::spans::{merge_spans, remove_spans};
use repo_walker::{CodeParser, SupportedLanguage};
use std::str::FromStr;

#[test]
fn test_rust_comment_removal() {
    let mut parser = CodeParser::new();
    let code = r#"
// Line comment
fn main() {
    /* Block comment */
    println!("Hello"); // End of line comment
    /* Multi
       line
       comment */
}
"#;
    let result = parser.remove_comments(code);
    assert!(!result.contains("// Line comment"));
    assert!(!result.contains("/* Block comment */"));
    assert!(!result.contains("// End of line comment"));
    assert!(result.contains("fn main()"));
    assert!(result.contains("println!(\"Hello\");"));
}

#[test]
fn test_javascript_comment_removal() {
    let mut parser = CodeParser::new();
    parser.set_language(SupportedLanguage::JavaScript).unwrap();
    let code = r#"
// Line comment
function main() {
    /* Block comment */
    console.log("Hello"); // End of line comment
    /* Multi
       line
       comment */
}
"#;
    let result = parser.remove_comments(code);
    assert!(!result.contains("// Line comment"));
    assert!(!result.contains("/* Block comment */"));
    assert!(!result.contains("// End of line comment"));
    assert!(result.contains("function main()"));
    assert!(result.contains("console.log(\"Hello\");"));
}

#[test]
fn test_go_comment_removal() {
    let mut parser = CodeParser::new();
    parser.set_language(SupportedLanguage::Go).unwrap();
    let code = r#"
// Line comment
package main

func main() {
    /* Block comment */
    fmt.Println("Hello") // End of line comment
    /* Multi
       line
       comment */
}
"#;
    let result = parser.remove_comments(code);
    assert!(!result.contains("// Line comment"));
    assert!(!result.contains("/* Block comment */"));
    assert!(!result.contains("// End of line comment"));
    assert!(result.contains("package main"));
    assert!(result.contains("func main()"));
    assert!(result.contains("fmt.Println(\"Hello\")"));
}

#[test]
fn python_comments_are_removed() {
    let mut parser = CodeParser::new();
    parser.set_language(SupportedLanguage::Python).unwrap();
    let result = parser.remove_comments("# note\nx = 1  # trailing\n");
    assert_eq!(result, "\nx = 1  \n");
}

#[test]
fn stripped_rust_keeps_every_other_byte() {
    let mut parser = CodeParser::new();
    let code = "// a\nfn m() { /* b */ println!(\"x\"); // c\n}";
    let result = parser.remove_comments(code);
    assert_eq!(result, "\nfn m() {  println!(\"x\"); \n}");
}

#[test]
fn stripping_is_idempotent_on_an_example() {
    let mut parser = CodeParser::new();
    let once = parser.remove_comments("fn a() {} // x\n/* y */ fn b() {}\n");
    let twice = parser.remove_comments(&once);
    assert_eq!(once, twice);
}

#[test]
fn language_names_are_case_insensitive() {
    assert_eq!(SupportedLanguage::from_name("RS"), Some(SupportedLanguage::Rust));
    assert_eq!(SupportedLanguage::from_name("javascript"), Some(SupportedLanguage::JavaScript));
    assert_eq!(SupportedLanguage::from_name("Py"), Some(SupportedLanguage::Python));
    assert_eq!(SupportedLanguage::from_name("go"), Some(SupportedLanguage::Go));
    assert_eq!(SupportedLanguage::from_name("xyz"), None);
    match SupportedLanguage::from_str("xyz") {
        Ok(_) => panic!("xyz names no language"),
        Err(msg) => assert_eq!(msg, "Unsupported language: xyz"),
    }
}

#[test]
fn spans_may_overlap_and_run_past_the_end() {
    let src = b"0123456789";
    let spans = vec![(6, 20), (1, 3), (2, 4)];
    assert_eq!(remove_spans(src, &spans), b"045".to_vec());
    assert_eq!(remove_spans(src, &vec![]), src.to_vec());
    assert_eq!(remove_spans(src, &vec![(5, 5), (7, 2)]), src.to_vec());
}

#[test]
fn spans_that_split_a_character_leave_the_text_unchanged() {
    let text = "aé b";
    assert_eq!(remove_comment_spans(text, &vec![(1, 2)]), text);
    assert_eq!(remove_comment_spans(text, &vec![(1, 3)]), "a b");
}

#[test]
fn merged_spans_are_sorted_and_separated() {
    let merged = merge_spans(&vec![(8, 9), (1, 3), (3, 5), (2, 4), (7, 7), (10, 12), (11, 11)]);
    assert_eq!(merged, vec![(1, 5), (8, 9), (10, 12)]);
    assert!(merge_spans(&vec![]).is_empty());
}

#[test]
fn text_that_does_not_parse_is_left_unchanged() {
    let mut parser = CodeParser::new();
    let code = "fn main( { // open\n";
    assert_eq!(parser.remove_comments(code), code);
}

#[test]
fn unknown_language_name_is_an_error_naming_it() {
    assert_eq!(SupportedLanguage::parse_name("Go"), Ok(SupportedLanguage::Go));
    assert_eq!(SupportedLanguage::parse_name("cobol"), Err("Unsupported language: cobol".to_string()));
}
