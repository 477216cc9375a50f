use v_kernel::classifier::{classify, collect_block, collect_statement, is_top_level_decl};

fn strings(items: &[&str]) -> Vec<String> {
    items.iter().map(|s| s.to_string()).collect()
}

#[test]
fn classify_single_statement() {
    let (decls, stmts) = classify("println('hi')");
    assert!(decls.is_empty());
    assert_eq!(stmts, strings(&["println('hi')"]));
}

#[test]
fn classify_function_is_a_declaration() {
    let (decls, stmts) = classify("fn add(a int, b int) int { return a + b }");
    assert_eq!(decls, strings(&["fn add(a int, b int) int { return a + b }"]));
    assert!(stmts.is_empty());
}

#[test]
fn classify_empty_cell() {
    let (decls, stmts) = classify("");
    assert!(decls.is_empty());
    assert!(stmts.is_empty());
}

#[test]
fn classify_skips_blank_comment_shebang_and_module_lines() {
    let code = "#!/usr/bin/env v\nmodule main\n\n// a comment\n/* block opener\n   \nx := 1\n";
    let (decls, stmts) = classify(code);
    assert!(decls.is_empty());
    assert_eq!(stmts, strings(&["x := 1"]));
}

#[test]
fn classify_keeps_order_within_each_kind() {
    let code = "import os\nx := 1\nfn f() {\n\treturn\n}\ny := 2\nstruct P {\n\tx int\n}\n";
    let (decls, stmts) = classify(code);
    assert_eq!(decls, strings(&["import os", "fn f() {\n\treturn\n}", "struct P {\n\tx int\n}"]));
    assert_eq!(stmts, strings(&["x := 1", "y := 2"]));
}

#[test]
fn classify_multi_line_statement_is_one_block() {
    let code = "if x > 1 {\n\tprintln('big')\n} else {\n\tprintln('small')\n}\nprintln('done')";
    let (decls, stmts) = classify(code);
    assert!(decls.is_empty());
    assert_eq!(
        stmts,
        strings(&["if x > 1 {\n\tprintln('big')\n} else {\n\tprintln('small')\n}", "println('done')"])
    );
}

#[test]
fn classify_keeps_lines_inside_a_block_as_they_are() {
    let code = "fn f() {\n\n\t// note\n  x := 1  \n}";
    let (decls, stmts) = classify(code);
    assert_eq!(decls, strings(&["fn f() {\n\n\t// note\n  x := 1  \n}"]));
    assert!(stmts.is_empty());
}

#[test]
fn classify_keeps_indentation_of_a_first_line() {
    let (decls, stmts) = classify("   fn f() {}\n\tx := 1");
    assert_eq!(decls, strings(&["   fn f() {}"]));
    assert_eq!(stmts, strings(&["\tx := 1"]));
}

#[test]
fn classify_unterminated_block_runs_to_the_end() {
    let code = "fn f() {\n\tx := 1\ny := 2";
    let (decls, stmts) = classify(code);
    assert_eq!(decls, strings(&["fn f() {\n\tx := 1\ny := 2"]));
    assert!(stmts.is_empty());
}

#[test]
fn classify_attribute_line_is_a_declaration_of_its_own() {
    let code = "[inline]\nfn f() {\n}\n@[deprecated]\nfn g() {}";
    let (decls, stmts) = classify(code);
    assert_eq!(decls, strings(&["[inline]", "fn f() {\n}", "@[deprecated]", "fn g() {}"]));
    assert!(stmts.is_empty());
}

#[test]
fn classify_counts_braces_in_strings_too() {
    let code = "s := '{'\nprintln(s)\n}";
    let (decls, stmts) = classify(code);
    assert!(decls.is_empty());
    assert_eq!(stmts, strings(&["s := '{'\nprintln(s)\n}"]));
}

#[test]
fn classify_windows_line_ends() {
    let (decls, stmts) = classify("fn f() {\r\n}\r\nx := 1\r\n");
    assert_eq!(decls, strings(&["fn f() {\n}"]));
    assert_eq!(stmts, strings(&["x := 1"]));
}

#[test]
fn classify_partitions_the_lines() {
    let code = "import os\n\nx := 1\n// skipped\nfn f() {\n\n\treturn\n}\nmodule other\nif x {\ny\n}\nz";
    let (decls, stmts) = classify(code);
    let decl_lines: Vec<String> =
        decls.iter().flat_map(|b| b.split('\n')).map(|l| l.to_string()).collect();
    let stmt_lines: Vec<String> =
        stmts.iter().flat_map(|b| b.split('\n')).map(|l| l.to_string()).collect();
    assert_eq!(decl_lines, strings(&["import os", "fn f() {", "", "\treturn", "}"]));
    assert_eq!(stmt_lines, strings(&["x := 1", "if x {", "y", "}", "z"]));
    let all: Vec<&str> = code.lines().collect();
    assert_eq!(decl_lines.len() + stmt_lines.len() + 3, all.len());
}

#[test]
fn collect_block_takes_lines_until_depth_is_zero() {
    let lines = ["fn f() {", "    x := 1", "}", "println(x)"];
    let (block, taken) = collect_block(&lines, 0);
    assert_eq!(block, "fn f() {\n    x := 1\n}");
    assert_eq!(taken, 3);
    let (block, taken) = collect_statement(&lines, 3);
    assert_eq!(block, "println(x)");
    assert_eq!(taken, 1);
}

#[test]
fn collect_block_without_brace_is_one_line() {
    let lines = ["import os", "{", "}"];
    assert_eq!(collect_block(&lines, 0), ("import os".to_string(), 1));
    assert_eq!(collect_statement(&lines, 0), ("import os".to_string(), 1));
}

#[test]
fn collect_block_nested_braces() {
    let lines = ["fn f() {", "if a {", "b }", "}", "after"];
    assert_eq!(collect_block(&lines, 0), ("fn f() {\nif a {\nb }\n}".to_string(), 4));
    assert_eq!(collect_statement(&lines, 1), ("if a {\nb }".to_string(), 2));
}

#[test]
fn collect_block_closes_when_depth_is_below_zero() {
    let lines = ["} {", "x"];
    assert_eq!(collect_block(&lines, 0), ("} {".to_string(), 1));
    let lines = ["}} {", "x"];
    assert_eq!(collect_statement(&lines, 0), ("}} {".to_string(), 1));
}

#[test]
fn collect_block_balanced_first_line() {
    let lines = ["struct P { x int }", "y"];
    assert_eq!(collect_block(&lines, 0), ("struct P { x int }".to_string(), 1));
}

#[test]
fn collect_block_unterminated_takes_the_rest() {
    let lines = ["a", "fn f() {", "{", "}"];
    assert_eq!(collect_block(&lines, 1), ("fn f() {\n{\n}".to_string(), 3));
    let lines = ["fn f() {"];
    assert_eq!(collect_block(&lines, 0), ("fn f() {".to_string(), 1));
}

#[test]
fn declaration_keywords() {
    for line in [
        "fn f() {}",
        "struct P {",
        "interface I {",
        "enum E {",
        "type T = int",
        "const x = 1",
        "const(",
        "import os",
        "__global x int",
        "__globals",
        "[inline]",
        "@[inline]",
        "pub fn f() {}",
        "pub mut static fn f()",
        "pub pub fn f()",
        "mut mut static static struct S {",
    ] {
        assert!(is_top_level_decl(line), "{:?}", line);
    }
}

#[test]
fn lines_that_start_no_declaration() {
    for line in [
        "",
        "x := 1",
        "println('fn ')",
        "fn",
        "fnord()",
        "const",
        "constx = 1",
        "importos",
        "mut pub fn f()",
        "static pub fn f()",
        " fn f()",
        "pubfn f()",
        "@ [x]",
        "_global",
    ] {
        assert!(!is_top_level_decl(line), "{:?}", line);
    }
}

#[test]
fn a_block_classifies_to_itself() {
    let code = "import os\nfn f() {\n\tif x {\n\t}\n}\nif a {\n\tb\n}\n[attr]\nx := 1\nfn open() {\n\ty";
    let (decls, stmts) = classify(code);
    assert_eq!(decls.len(), 4);
    assert_eq!(stmts.len(), 2);
    for block in &decls {
        assert_eq!(classify(block), (vec![block.clone()], vec![]));
    }
    for block in &stmts {
        assert_eq!(classify(block), (vec![], vec![block.clone()]));
    }
}
