use repo_walker::pattern::Pattern;
use repo_walker::{CodeParser, OutputFormatter, SupportedLanguage};
use std::str::FromStr;

fn formatter() -> OutputFormatter {
    OutputFormatter::new()
}

fn banner80() -> String {
    "=".repeat(80)
}

#[test]
fn test_token_counting() {
    let formatter = formatter();
    let text = "fn main() {\n    println!(\"Hello, world!\");\n}";
    let tokens = formatter.count_tokens(text);
    assert!(tokens > 0, "Token count should be greater than 0");
    assert!(tokens < 50, "Small code snippet should have less than 50 tokens");
}

#[test]
fn test_file_contents_formatting() {
    let mut formatter = formatter();
    let contents = "fn test() {\n    assert_eq!(2 + 2, 4);\n}";
    let section = formatter.print_file_contents("test.rs", contents);
    assert!(section.is_some());
    assert!(formatter.total_tokens() > 0, "Total tokens should be updated");
}

#[test]
fn test_token_usage_formatting() {
    let mut formatter = formatter();
    formatter.print_file_contents("test.rs", "fn test() {\n    println!(\"test\");\n}");
    let usage_8k = formatter.format_token_usage(8192);
    assert!(usage_8k.contains("%"), "Usage string should contain percentage");
    assert!(usage_8k.contains("used"), "Usage string should contain 'used'");
}

#[test]
fn test_strip_comments() {
    let _formatter = formatter().with_strip_comments(false);
    let rust_path = "test.rs";
    let rust_code = r#"
// Line comment
fn main() {
    /* Block comment */
    println!("Hello"); // End of line comment
    /* Multi
       line
       comment */
}
"#;
    let mut output = String::new();
    output.push_str(&format!("\n{}\n", "=".repeat(80)));
    output.push_str(&format!("File: {} (≈{} tokens)\n", rust_path, 25));
    output.push_str(&format!("{}\n", "=".repeat(80)));
    for (i, line) in rust_code.lines().enumerate() {
        if !line.trim().is_empty() {
            output.push_str(&format!("{:4}│ {}\n", i + 1, line));
        }
    }
    assert!(output.contains("// Line comment"));
    assert!(output.contains("/* Block comment */"));
    assert!(output.contains("// End of line comment"));
    assert!(output.contains("fn main()"));
    assert!(output.contains("println!(\"Hello\");"));

    let _formatter = formatter().with_strip_comments(true);
    let mut output = String::new();
    output.push_str(&format!("\n{}\n", "=".repeat(80)));
    output.push_str(&format!("File: {} (≈{} tokens)\n", rust_path, 25));
    output.push_str(&format!("{}\n", "=".repeat(80)));
    let contents = match SupportedLanguage::from_str("rs") {
        Ok(lang) => {
            let mut parser = CodeParser::new();
            if parser.set_language(lang).is_ok() {
                parser.remove_comments(rust_code)
            } else {
                rust_code.to_string()
            }
        }
        Err(_) => rust_code.to_string(),
    };
    for (i, line) in contents.lines().enumerate() {
        if !line.trim().is_empty() {
            output.push_str(&format!("{:4}│ {}\n", i + 1, line));
        }
    }
    assert!(!output.contains("// Line comment"));
    assert!(!output.contains("/* Block comment */"));
    assert!(!output.contains("// End of line comment"));
    assert!(output.contains("fn main()"));
    assert!(output.contains("println!(\"Hello\");"));
}

#[test]
fn test_unsupported_language() {
    let mut formatter = formatter().with_strip_comments(true);
    let code = "// This is a comment\nThis is code";
    let output = formatter.print_file_contents("test.xyz", code).expect("included");
    assert!(output.contains("// This is a comment"));
    assert!(output.contains("This is code"));
}

#[test]
fn header_names_repository_and_revision() {
    let f = formatter();
    let banner = "=".repeat(64);
    assert_eq!(
        f.print_header("repo", "current"),
        format!("{}\nRepository Snapshot: repo @ current\n{}\n", banner, banner)
    );
}

#[test]
fn section_numbers_every_line() {
    let mut f = formatter();
    let text = "fn a() {}\r\n\nlet x = 1;\n";
    let n = f.count_tokens(text);
    let section = f.print_section("src/a.rs", text);
    let expected = format!(
        "\n{}\nFile: src/a.rs (≈{} tokens)\n{}\n1   │ fn a() {{}}\n2   │ \n3   │ let x = 1;\n",
        banner80(),
        n,
        banner80()
    );
    assert_eq!(section, expected);
    assert_eq!(f.total_tokens(), n);
}

#[test]
fn strip_comments_changes_the_section_body() {
    let code = "// a\nfn m() { /* b */ println!(\"x\"); // c\n}";
    let mut plain = formatter();
    let body = plain.print_file_contents("t.rs", code).expect("included");
    for part in ["fn m()", "println!(\"x\");", "// a", "/* b */", "// c"] {
        assert!(body.contains(part));
    }
    let mut stripping = formatter().with_strip_comments(true);
    let body = stripping.print_file_contents("t.rs", code).expect("included");
    assert!(body.contains("fn m()"));
    assert!(body.contains("println!(\"x\");"));
    for part in ["// a", "/* b */", "// c"] {
        assert!(!body.contains(part));
    }
}

#[test]
fn usage_rounds_to_the_nearest_percent() {
    let mut f = formatter();
    assert_eq!(f.format_token_usage(8192), "0.0% used (0/8192)");
    let text = "word ".repeat(41);
    let n = f.count_tokens(&text);
    f.print_section("a.txt", &text);
    let expected = (200 * n + 8192) / (2 * 8192);
    assert_eq!(f.format_token_usage(8192), format!("{}.0% used ({}/8192)", expected, n));
    assert_eq!(f.format_token_usage(100), format!("{}.0% used ({}/100)", (200 * n + 100) / 200, n));
}

#[test]
fn summary_total_is_the_sum_of_sections() {
    let mut f = formatter()
        .with_extensions(vec!["RS".to_string()])
        .with_excludes(vec!["target".to_string(), "\\.lock$".to_string()])
        .ok()
        .expect("valid excludes");
    let a = f.count_tokens("fn a() {}");
    let b = f.count_tokens("fn b() { let y = 2; }");
    assert!(f.print_file_contents("src/a.rs", "fn a() {}").is_some());
    assert!(f.print_file_contents("README.md", "# readme").is_none());
    assert!(f.print_file_contents("target/x.rs", "fn x() {}").is_none());
    assert!(f.print_file_contents("src/b.rs", "fn b() { let y = 2; }").is_some());
    assert_eq!(f.total_tokens(), a + b);
    let summary = f.print_summary();
    let expected = format!(
        "\nAnalysis Summary\n{}\nTotal tokens processed: {}\nGPT-4 context window sizes for reference:\n- 8K context: {}\n- 32K context: {}\nFile extensions: rs\nExclude patterns: target, \\.lock$\n",
        "=".repeat(64),
        a + b,
        f.format_token_usage(8192),
        f.format_token_usage(32768)
    );
    assert_eq!(summary, expected);
}

#[test]
fn empty_file_gives_no_section() {
    let mut f = formatter();
    assert_eq!(f.print_walked_file("src/empty.rs", "", &None, 3), "");
    assert_eq!(f.total_tokens(), 0);
}

#[test]
fn binary_file_gives_no_section_with_or_without_pattern() {
    let mut f = formatter();
    let pattern = Pattern::new("PNG");
    assert!(pattern.is_some());
    assert_eq!(f.print_walked_file("logo.png", "\u{fffd}PNG", &None, 3), "");
    assert_eq!(f.print_walked_file("logo.png", "\u{fffd}PNG", &pattern, 3), "");
    assert_eq!(f.total_tokens(), 0);
}

#[test]
fn walked_file_without_pattern_gets_its_section() {
    let mut f = formatter();
    let out = f.print_walked_file("src/main.rs", "fn main() { println!(\"Hello, world!\"); }\n", &None, 3);
    assert!(out.contains("File: src/main.rs (≈"));
    assert!(out.contains("1   │ fn main()"));
    assert!(f.total_tokens() > 0);
}
