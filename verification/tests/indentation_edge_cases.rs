use snips::{diff_file, sync_snippets_in_file, TextFile};

/// Stores `content` under `path`, replacing what was there.
fn put_indentation_edge_cases(disk: &mut Vec<TextFile>, path: &str, content: &str) {
    for file in disk.iter_mut() {
        if file.path == path {
            file.content = content.to_string();
            return;
        }
    }
    disk.push(TextFile { path: path.to_string(), content: content.to_string() });
}

/// The text stored under `path`.
fn get_indentation_edge_cases(disk: &Vec<TextFile>, path: &str) -> String {
    disk.iter().find(|f| f.path == path).map(|f| f.content.clone()).unwrap()
}

/// The path of `name` inside the directory `dir`.
fn join_indentation_edge_cases(dir: &str, name: &str) -> String {
    format!("{dir}/{name}")
}

// Helper to write a source file with indented content
fn write_indented_source_in_indentation_edge_cases(disk: &mut Vec<TextFile>, path: &str, content: &str) {
    let mut f = String::new();
    f.push_str(&format!("{content}"));
    put_indentation_edge_cases(disk, path, &f);
}

// Helper to write markdown with specific indentation
fn write_indented_markdown_in_indentation_edge_cases(disk: &mut Vec<TextFile>, path: &str, indent: &str, snippet_path: &str, code_content: &str) {
    let mut f = String::new();
    f.push_str(&format!("Some documentation:\n"));
    f.push('\n');
    f.push_str(&format!("{indent}<!-- snips: {snippet_path} -->\n"));
    f.push_str(&format!("{indent}```rust\n"));
    for line in code_content.lines() {
        if line.trim().is_empty() {
            f.push('\n');
        } else {
            f.push_str(&format!("{indent}{line}\n"));
        }
    }
    f.push_str(&format!("{indent}```\n"));
    put_indentation_edge_cases(disk, path, &f);
}

#[test]
fn indented_source_with_indented_markdown_no_diff() {
    // This test reproduces the bug where render makes no changes
    // but diff still shows differences
    let mut disk: Vec<TextFile> = Vec::new();
    let dir = String::from("/work");
    let code_path = join_indentation_edge_cases(&dir, "code.rs");

    // Source file with indented content
    write_indented_source_in_indentation_edge_cases(
        &mut disk,
        &code_path,
        "fn main() {\n    if true {\n        println!(\"hello\");\n    }\n}\n",
    );

    let md_path = join_indentation_edge_cases(&dir, "doc.md");

    // Markdown with 4-space indentation containing the correctly indented content
    write_indented_markdown_in_indentation_edge_cases(
        &mut disk,
        &md_path,
        "    ",
        "code.rs",
        "fn main() {\n    if true {\n        println!(\"hello\");\n    }\n}",
    );

    // First, check if render makes any changes
    let render_result = sync_snippets_in_file(&md_path, false, &mut disk).unwrap();
    println!("Render result (should be None): {:?}", render_result);

    // Check what diff reports
    let diffs = diff_file(&md_path, &disk).unwrap();
    println!("Number of diffs found: {}", diffs.len());

    for diff in &diffs {
        println!("Diff found:");
        println!("  Path: {}", diff.path);
        println!("  Old content: {:?}", diff.old_content);
        println!("  New content: {:?}", diff.new_content);
        println!("  Old trimmed: {:?}", diff.old_content.trim());
        println!("  New trimmed: {:?}", diff.new_content.trim());
    }

    // This should pass but currently might fail due to the bug
    assert!(
        render_result.is_none(),
        "Render should make no changes when content matches"
    );
    assert!(
        diffs.is_empty(),
        "Diff should report no changes when content matches"
    );
}

#[test]
fn various_indentation_combinations() {
    let mut disk: Vec<TextFile> = Vec::new();
    let dir = String::from("/work");
    let code_path = join_indentation_edge_cases(&dir, "code.rs");

    // Source with mixed indentation
    write_indented_source_in_indentation_edge_cases(
        &mut disk,
        &code_path,
        "struct Example {\n    field: i32,\n}\n\nimpl Example {\n    fn method(&self) {\n        println!(\"value: {}\", self.field);\n    }\n}\n",
    );

    let test_cases = vec![
        ("no_indent", ""),
        ("two_spaces", "  "),
        ("four_spaces", "    "),
        ("tab", "\t"),
        ("mixed", "  \t"),
    ];

    for (name, indent) in test_cases {
        let md_path = join_indentation_edge_cases(&dir, &format!("doc_{name}.md"));

        // Write markdown with the current indentation level
        write_indented_markdown_in_indentation_edge_cases(
            &mut disk,
            &md_path,
            indent,
            "code.rs",
            "struct Example {\n    field: i32,\n}\n\nimpl Example {\n    fn method(&self) {\n        println!(\"value: {}\", self.field);\n    }\n}",
        );

        // Test render consistency
        let render_result1 = sync_snippets_in_file(&md_path, false, &mut disk).unwrap();
        let render_result2 = sync_snippets_in_file(&md_path, false, &mut disk).unwrap();

        assert_eq!(
            render_result1, render_result2,
            "Render should be idempotent for {name} indentation"
        );

        // Test diff consistency
        let diffs1 = diff_file(&md_path, &disk).unwrap();
        let diffs2 = diff_file(&md_path, &disk).unwrap();

        assert_eq!(
            diffs1.len(),
            diffs2.len(),
            "Diff should be consistent for {name} indentation"
        );

        // If render makes no changes, diff should report no changes
        if render_result1.is_none() {
            assert!(
                diffs1.is_empty(),
                "If render makes no changes, diff should report no changes for {name} indentation"
            );
        }
    }
}

#[test]
fn deep_indentation_with_nested_content() {
    let mut disk: Vec<TextFile> = Vec::new();
    let dir = String::from("/work");
    let code_path = join_indentation_edge_cases(&dir, "code.rs");

    // Source with deeply nested content
    write_indented_source_in_indentation_edge_cases(
        &mut disk,
        &code_path,
        "mod outer {\n    mod inner {\n        fn deeply_nested() {\n            if let Some(value) = option {\n                match value {\n                    1 => println!(\"one\"),\n                    _ => println!(\"other\"),\n                }\n            }\n        }\n    }\n}\n",
    );

    let md_path = join_indentation_edge_cases(&dir, "doc.md");

    // Markdown with 8-space indentation (deeply nested list)
    write_indented_markdown_in_indentation_edge_cases(
        &mut disk,
        &md_path,
        "        ",
        "code.rs",
        "mod outer {\n    mod inner {\n        fn deeply_nested() {\n            if let Some(value) = option {\n                match value {\n                    1 => println!(\"one\"),\n                    _ => println!(\"other\"),\n                }\n            }\n        }\n    }\n}",
    );

    // Test multiple render passes
    let content_before = get_indentation_edge_cases(&disk, &md_path);

    let render1 = sync_snippets_in_file(&md_path, false, &mut disk).unwrap();
    let render2 = sync_snippets_in_file(&md_path, false, &mut disk).unwrap();
    let render3 = sync_snippets_in_file(&md_path, false, &mut disk).unwrap();

    let content_after = get_indentation_edge_cases(&disk, &md_path);

    // Content should not change between renders
    assert_eq!(
        content_before, content_after,
        "Content should not change during multiple renders"
    );

    // All renders should agree
    assert_eq!(render1, render2, "First and second render should agree");
    assert_eq!(render2, render3, "Second and third render should agree");

    // Test diff consistency
    let diffs = diff_file(&md_path, &disk).unwrap();

    if render1.is_none() {
        assert!(
            diffs.is_empty(),
            "No diffs should be reported when render makes no changes"
        );
    }
}

#[test]
fn empty_lines_and_trailing_whitespace() {
    let mut disk: Vec<TextFile> = Vec::new();
    let dir = String::from("/work");
    let code_path = join_indentation_edge_cases(&dir, "code.rs");

    // Source with empty lines and various whitespace
    write_indented_source_in_indentation_edge_cases(
        &mut disk,
        &code_path,
        "fn function_with_gaps() {\n    let x = 1;\n\n    let y = 2;\n\n\n    println!(\"result: {}\", x + y);\n}\n",
    );

    let md_path = join_indentation_edge_cases(&dir, "doc.md");

    // Markdown with correct indentation including empty lines
    let mut f = String::new();
    f.push_str(&format!("Example:\n"));
    f.push('\n');
    f.push_str(&format!("    <!-- snips: code.rs -->\n"));
    f.push_str(&format!("    ```rust\n"));
    f.push_str(&format!("    fn function_with_gaps() {{\n"));
    f.push_str(&format!("        let x = 1;\n"));
    f.push('\n'); // Empty line
    f.push_str(&format!("        let y = 2;\n"));
    f.push('\n'); // Empty line
    f.push('\n'); // Empty line
    f.push_str(&format!("        println!(\"result: {{}}\", x + y);\n"));
    f.push_str(&format!("    }}\n"));
    f.push_str(&format!("    ```\n"));
    put_indentation_edge_cases(&mut disk, &md_path, &f);

    // Test render and diff consistency
    let render_result = sync_snippets_in_file(&md_path, false, &mut disk).unwrap();
    let diffs = diff_file(&md_path, &disk).unwrap();

    println!("Empty lines test - render result: {:?}", render_result);
    println!("Empty lines test - diffs: {}", diffs.len());

    if render_result.is_none() {
        assert!(
            diffs.is_empty(),
            "No diffs when render makes no changes (empty lines test)"
        );
    }
}

#[test]
fn tabs_vs_spaces_consistency() {
    let mut disk: Vec<TextFile> = Vec::new();
    let dir = String::from("/work");
    let code_path = join_indentation_edge_cases(&dir, "code.rs");

    // Source using spaces for indentation
    write_indented_source_in_indentation_edge_cases(
        &mut disk,
        &code_path,
        "fn spaces() {\n    println!(\"using spaces\");\n}\n",
    );

    // Test with markdown using tabs
    let md_path_tabs = join_indentation_edge_cases(&dir, "doc_tabs.md");
    write_indented_markdown_in_indentation_edge_cases(
        &mut disk,
        &md_path_tabs,
        "\t",
        "code.rs",
        "fn spaces() {\n    println!(\"using spaces\");\n}",
    );

    // Test with markdown using spaces
    let md_path_spaces = join_indentation_edge_cases(&dir, "doc_spaces.md");
    write_indented_markdown_in_indentation_edge_cases(
        &mut disk,
        &md_path_spaces,
        "    ",
        "code.rs",
        "fn spaces() {\n    println!(\"using spaces\");\n}",
    );

    for (name, path) in [("tabs", &md_path_tabs), ("spaces", &md_path_spaces)] {
        let render_result = sync_snippets_in_file(path, false, &mut disk).unwrap();
        let diffs = diff_file(path, &disk).unwrap();

        println!("{name} test - render result: {:?}", render_result);
        println!("{name} test - diffs: {}", diffs.len());

        if render_result.is_none() {
            assert!(
                diffs.is_empty(),
                "No diffs when render makes no changes ({name} test)"
            );
        }
    }
}

#[test]
fn render_diff_consistency_complex() {
    // Test that render and diff always agree on complex nested structures
    let mut disk: Vec<TextFile> = Vec::new();
    let dir = String::from("/work");
    let code_path = join_indentation_edge_cases(&dir, "code.rs");

    write_indented_source_in_indentation_edge_cases(

        &mut disk,
        &code_path,
        "mod test {\n    use std::collections::HashMap;\n\n    pub struct Config {\n        map: HashMap<String, String>,\n    }\n\n    impl Config {\n        pub fn new() -> Self {\n            Self {\n                map: HashMap::new(),\n            }\n        }\n\n        pub fn set(&mut self, key: String, value: String) {\n            self.map.insert(key, value);\n        }\n    }\n}\n",
    );

    let md_path = join_indentation_edge_cases(&dir, "doc.md");
    write_indented_markdown_in_indentation_edge_cases(
        &mut disk,
        &md_path,
        "      ",
        "code.rs",
        "mod test {\n    use std::collections::HashMap;\n\n    pub struct Config {\n        map: HashMap<String, String>,\n    }\n\n    impl Config {\n        pub fn new() -> Self {\n            Self {\n                map: HashMap::new(),\n            }\n        }\n\n        pub fn set(&mut self, key: String, value: String) {\n            self.map.insert(key, value);\n        }\n    }\n}",
    );

    // Test multiple iterations to ensure stability
    for i in 1..=5 {
        let render_result = sync_snippets_in_file(&md_path, false, &mut disk).unwrap();
        let diffs = diff_file(&md_path, &disk).unwrap();

        if render_result.is_none() {
            assert!(
                diffs.is_empty(),
                "Iteration {i}: No diffs when render makes no changes"
            );
        } else {
            assert!(
                !diffs.is_empty(),
                "Iteration {i}: Diffs should exist when render makes changes"
            );
        }
    }
}

#[test]
fn named_snippets_with_indentation() {
    let mut disk: Vec<TextFile> = Vec::new();
    let dir = String::from("/work");
    let code_path = join_indentation_edge_cases(&dir, "code.rs");

    let mut f = String::new();
    f.push_str(&format!("// snips-start: function-a\n"));
    f.push_str(&format!("fn function_a() {{\n"));
    f.push_str(&format!("    println!(\"A\");\n"));
    f.push_str(&format!("}}\n"));
    f.push_str(&format!("// snips-end: function-a\n"));
    f.push('\n');
    f.push_str(&format!("// snips-start: function-b\n"));
    f.push_str(&format!("fn function_b() {{\n"));
    f.push_str(&format!("    println!(\"B\");\n"));
    f.push_str(&format!("}}\n"));
    f.push_str(&format!("// snips-end: function-b\n"));
    put_indentation_edge_cases(&mut disk, &code_path, &f);

    let md_path = join_indentation_edge_cases(&dir, "doc.md");
    let mut f = String::new();
    f.push_str(&format!("Functions:\n"));
    f.push('\n');
    f.push_str(&format!("  <!-- snips: code.rs#function-a -->\n"));
    f.push_str(&format!("  ```rust\n"));
    f.push_str(&format!("  fn function_a() {{\n"));
    f.push_str(&format!("      println!(\"A\");\n"));
    f.push_str(&format!("  }}\n"));
    f.push_str(&format!("  ```\n"));
    f.push('\n');
    f.push_str(&format!("    <!-- snips: code.rs#function-b -->\n"));
    f.push_str(&format!("    ```rust\n"));
    f.push_str(&format!("    fn function_b() {{\n"));
    f.push_str(&format!("        println!(\"B\");\n"));
    f.push_str(&format!("    }}\n"));
    f.push_str(&format!("    ```\n"));
    put_indentation_edge_cases(&mut disk, &md_path, &f);

    // Test render/diff consistency
    let render_result = sync_snippets_in_file(&md_path, false, &mut disk).unwrap();
    let diffs = diff_file(&md_path, &disk).unwrap();

    if render_result.is_none() {
        assert!(
            diffs.is_empty(),
            "Named snippets: No diffs when render makes no changes"
        );
    } else {
        assert!(
            !diffs.is_empty(),
            "Named snippets: Diffs should exist when render makes changes"
        );
    }
}
