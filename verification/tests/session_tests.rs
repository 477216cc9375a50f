use v_kernel::session::KernelState;

#[test]
fn new_session_is_empty() {
    let state = KernelState::new();
    assert!(state.declarations().is_empty());
    assert!(state.statements().is_empty());
    assert_eq!(state.execution_count(), 0);
    assert_eq!(state.build_source(), "module main\n\n");
}

#[test]
fn one_statement_is_wrapped_in_main() {
    let mut state = KernelState::new();
    let file = state.stage_cell("println('hi')");
    assert!(state.declarations().is_empty());
    assert_eq!(state.statements(), &vec!["println('hi')".to_string()]);
    assert_eq!(state.execution_count(), 1);
    assert_eq!(file.name, "cell_1.v");
    assert_eq!(file.text, "module main\n\nfn main() {\n\tprintln('hi')\n}\n");
}

#[test]
fn declaration_then_statement() {
    let mut state = KernelState::new();
    let first = state.stage_cell("fn add(a int, b int) int { return a + b }");
    assert_eq!(first.name, "cell_1.v");
    assert_eq!(first.text, "module main\n\nfn add(a int, b int) int { return a + b }\n\n");
    let second = state.stage_cell("println(add(2,3))");
    assert_eq!(second.name, "cell_2.v");
    assert_eq!(
        second.text,
        "module main\n\nfn add(a int, b int) int { return a + b }\n\nfn main() {\n\tprintln(add(2,3))\n}\n"
    );
    assert_eq!(state.execution_count(), 2);
}

#[test]
fn imports_come_first_and_keep_their_order() {
    let mut state = KernelState::new();
    state.stage_cell("fn f() {}\nimport os");
    let file = state.stage_cell("  import math\nstruct P {\n\tx int\n}\nx := 1");
    assert_eq!(
        file.text,
        "module main\n\nimport os\n  import math\n\nfn f() {}\n\nstruct P {\n\tx int\n}\n\nfn main() {\n\tx := 1\n}\n"
    );
}

#[test]
fn every_line_of_a_statement_is_indented() {
    let mut state = KernelState::new();
    let file = state.stage_cell("if x {\n\ty\n\n}\nz");
    assert_eq!(file.text, "module main\n\nfn main() {\n\tif x {\n\t\ty\n\t\n\t}\n\tz\n}\n");
}

#[test]
fn state_accumulates_over_cells() {
    let cells = ["import os\nx := 1", "fn f() {}\ny := 2", "// nothing", "x := 1", "fn f() {}"];
    let mut state = KernelState::new();
    let mut last = String::new();
    for (i, cell) in cells.iter().enumerate() {
        let file = state.stage_cell(cell);
        assert_eq!(state.execution_count(), i as u32 + 1);
        assert_eq!(file.name, format!("cell_{}.v", i + 1));
        last = file.text;
    }
    let decls: Vec<String> =
        ["import os", "fn f() {}", "fn f() {}"].iter().map(|s| s.to_string()).collect();
    let stmts: Vec<String> = ["x := 1", "y := 2", "x := 1"].iter().map(|s| s.to_string()).collect();
    assert_eq!(state.declarations(), &decls);
    assert_eq!(state.statements(), &stmts);
    assert_eq!(
        last,
        "module main\n\nimport os\n\nfn f() {}\n\nfn f() {}\n\nfn main() {\n\tx := 1\n\ty := 2\n\tx := 1\n}\n"
    );
    assert_eq!(last, state.build_source());
}

#[test]
fn counter_goes_up_by_one_for_every_cell() {
    let mut state = KernelState::new();
    for n in 1..=12u32 {
        let before = state.execution_count();
        let file = state.stage_cell("this is { not valid");
        assert_eq!(state.execution_count(), before + 1);
        assert_eq!(state.execution_count(), n);
        assert_eq!(file.name, format!("cell_{}.v", n));
    }
}

#[test]
fn scratch_directory_is_named_after_the_identifier() {
    let mut state = KernelState::with_id("1234-abcd");
    assert_eq!(state.scratch_dir(), "v-kernel-1234-abcd");
    assert_eq!(state.execution_count(), 0);
    assert!(state.declarations().is_empty());
    assert!(state.statements().is_empty());
    state.stage_cell("x := 1");
    assert_eq!(state.scratch_dir(), "v-kernel-1234-abcd");
    assert_eq!(KernelState::with_id("").scratch_dir(), "v-kernel-");
}

#[test]
fn every_new_session_has_a_scratch_directory_of_its_own() {
    let a = KernelState::new();
    let b = KernelState::new();
    assert!(a.scratch_dir().starts_with("v-kernel-"));
    assert!(b.scratch_dir().starts_with("v-kernel-"));
    assert!(uuid::Uuid::parse_str(&a.scratch_dir()["v-kernel-".len()..]).is_ok());
    assert_ne!(a.scratch_dir(), b.scratch_dir());
}
