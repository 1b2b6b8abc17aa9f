//! End-to-end tests: sources are compiled with `ast` and `gen_ir` and run on
//! a fresh machine against small variable and array tables.

use pipa::error::ErrorReason;
use pipa::ir::gen_ir;
use pipa::ir::Op;
use pipa::syntax::ast;
use pipa::vm::Vm;
use pipa::vm::VmError;

fn tables() -> (Vec<(String, String)>, Vec<(String, Vec<String>)>) {
    let vars = vec![
        ("name".to_string(), "cake".to_string()),
        ("sirname".to_string(), "cakolas".to_string()),
        ("arg".to_string(), "this is an arg".to_string()),
    ];
    let arrays = vec![(
        "ARGS".to_string(),
        vec!["cake".to_string(), "cakolas".to_string(), "this is an arg".to_string()],
    )];
    (vars, arrays)
}

fn render(code: &str) -> Result<String, String> {
    let nodes = ast(code).map_err(|_| "compile error in ast".to_string())?;
    let program = gen_ir(code, nodes).map_err(|_| "compile error in gen_ir".to_string())?;
    let (vars, arrays) = tables();
    let mut vm = Vm::new(vars, arrays);
    let mut out = String::new();
    vm.run(&mut out, &program).map_err(|_| "runtime fault".to_string())?;
    Ok(out)
}

fn compile_err(code: &str) -> pipa::error::CompileError {
    match ast(code) {
        Err(e) => e,
        Ok(nodes) => match gen_ir(code, nodes) {
            Err(e) => e,
            Ok(_) => panic!("expected a compile error"),
        },
    }
}

#[test]
fn without_a_newline() {
    assert_eq!(render("{{ name }}").unwrap(), "cake");
}

#[test]
fn compile_runs_the_whole_front_end() {
    let program = pipa::ir::compile("{{ name }} and {{ sirname }}").unwrap();
    let (vars, arrays) = tables();
    let mut vm = Vm::new(vars, arrays);
    let mut out = String::new();
    vm.run(&mut out, &program).unwrap();
    assert_eq!(out, "cake and cakolas");
}

#[test]
fn literal_round_trip() {
    let src = "plain text, no directives.\nsecond line\u{300} with marks\n";
    assert_eq!(render(src).unwrap(), src);
}

#[test]
fn escaped_braces_in_literal() {
    assert_eq!(render("a\\{b\\}c").unwrap(), "a{b}c");
}

#[test]
fn integer_keeps_its_text() {
    assert_eq!(render("{{ 007 }}").unwrap(), "007");
}

#[test]
fn comment_renders_nothing() {
    assert_eq!(render("{{ # just a comment\n }}").unwrap(), "");
}

#[test]
fn slice_clamps_large_end() {
    // "cake" has 4 graphemes; [2:100] clamps to [2:4).
    assert_eq!(render("{{ name[2:100] }}").unwrap(), "ke");
}

#[test]
fn slice_out_of_range_is_empty() {
    assert_eq!(render("{{ name[10:20] }}").unwrap(), "");
}

#[test]
fn slice_unbounded_sides() {
    assert_eq!(render("{{ name[1:] }}").unwrap(), "ake");
    assert_eq!(render("{{ name[:2] }}").unwrap(), "ca");
    assert_eq!(render("{{ name[:] }}").unwrap(), "cake");
}

#[test]
fn array_bound_clamps_to_length() {
    // three items, window [0:100): exactly three iterations.
    let out = render("{{ ARGS[0:100] | \"$(_item_);\" }}").unwrap();
    assert_eq!(out, "cake;cakolas;this is an arg;");
}

#[test]
fn array_window_past_end_is_empty() {
    assert_eq!(render("{{ ARGS[5:10] | \"$(_item_);\" }}").unwrap(), "");
}

#[test]
fn pipe_binds_underscore() {
    assert_eq!(render("{{ 5 | \"$(_)\" }}").unwrap(), "5");
}

#[test]
fn scenario_variable() {
    assert_eq!(render("{{ name }}").unwrap(), "cake");
}

#[test]
fn scenario_iteration() {
    let out = render("{{ ARGS[0:2] | \" - $(_item_)($(_index_))\\n\" }}").unwrap();
    assert_eq!(out, " - cake(0)\n - cakolas(1)\n");
}

#[test]
fn macro_expands_twice() {
    let out = render("{{ @m name \n?m ?m }}").unwrap();
    assert_eq!(out, "cakecake");
}

#[test]
fn macro_redefinition_fails() {
    let e = compile_err("{{ @m 1 \n@m 2 \n }}");
    match e.reason() {
        ErrorReason::MacroRedefinition { name } => assert_eq!(name, "m"),
        _ => panic!("wrong reason"),
    }
}

#[test]
fn undefined_macro_fails() {
    let e = compile_err("{{ ?y }}");
    match e.reason() {
        ErrorReason::UndefinedMacro { name } => assert_eq!(name, "y"),
        _ => panic!("wrong reason"),
    }
}

#[test]
fn nested_macro_fails() {
    let e = compile_err("{{ @m ?x \n }}");
    match e.reason() {
        ErrorReason::NestedMacro => {},
        _ => panic!("wrong reason"),
    }
}

#[test]
fn empty_macro_fails() {
    let e = compile_err("{{ @m \n }}");
    match e.reason() {
        ErrorReason::EmptyMacro => {},
        _ => panic!("wrong reason"),
    }
}

#[test]
fn array_without_pipe_fails() {
    let e = compile_err("{{ ARGS[0:1] }}");
    match e.reason() {
        ErrorReason::ArrayNotPiped => {},
        _ => panic!("wrong reason"),
    }
}

#[test]
fn stray_pipe_fails() {
    let e = compile_err("{{ | \"x\" }}");
    match e.reason() {
        ErrorReason::PipeNoParent => {},
        _ => panic!("wrong reason"),
    }
}

#[test]
fn pipe_into_number_is_type_error() {
    let e = compile_err("{{ 5 | 6 }}");
    match e.reason() {
        ErrorReason::TypeError { .. } => {},
        _ => panic!("wrong reason"),
    }
}

#[test]
fn reserved_name_outside_loop_fails() {
    let e = compile_err("{{ _item_ }}");
    match e.reason() {
        ErrorReason::UndefinedVar { name } => assert_eq!(name, "_item_"),
        _ => panic!("wrong reason"),
    }
}

#[test]
fn range_not_after_name_fails() {
    let e = compile_err("{{ x y[0:1] }}");
    match e.reason() {
        ErrorReason::ArrayNoNewLine => {},
        _ => panic!("wrong reason"),
    }
}

#[test]
fn non_ascii_name_fails() {
    let e = compile_err("{{ caf\u{e9} }}");
    match e.reason() {
        ErrorReason::NameError => {},
        _ => panic!("wrong reason"),
    }
}

#[test]
fn unterminated_block_fails() {
    let e = compile_err("{{ name");
    match e.reason() {
        ErrorReason::SyntaxError { .. } => {},
        _ => panic!("wrong reason"),
    }
}

#[test]
fn stray_close_fails() {
    let e = compile_err("a }} b");
    match e.reason() {
        ErrorReason::SyntaxError { .. } => {},
        _ => panic!("wrong reason"),
    }
}

#[test]
fn undefined_variable_renders_empty() {
    assert_eq!(render("[{{ missing }}]").unwrap(), "[]");
}

#[test]
fn flush_writes_in_push_order() {
    let program = vec![
        Op::PutStr { value: "a".to_string() },
        Op::PutStr { value: "b".to_string() },
        Op::PutStr { value: "c".to_string() },
        Op::Flush,
    ];
    let mut vm = Vm::new(Vec::new(), Vec::new());
    let mut out = String::new();
    vm.run(&mut out, &program).unwrap();
    assert_eq!(out, "abc");
}

#[test]
fn empty_stack_faults() {
    let program = vec![Op::PutScopeVar { name: "_".to_string() }];
    let mut vm = Vm::new(Vec::new(), Vec::new());
    let mut out = String::new();
    assert_eq!(vm.run(&mut out, &program), Err(VmError::EmptyStack));
}

#[test]
fn unresolved_scope_variable_faults() {
    let program = vec![Op::PutName { start: None, end: None, name: "_ghost_".to_string() }];
    let mut vm = Vm::new(Vec::new(), Vec::new());
    let mut out = String::new();
    assert_eq!(vm.run(&mut out, &program), Err(VmError::UndefinedScopeVar));
}

#[test]
fn array_item_out_of_bounds_faults() {
    let program = vec![
        Op::SetCounter { value: 9 },
        Op::LoadArrayItem { name: "ARGS".to_string() },
    ];
    let (vars, arrays) = tables();
    let mut vm = Vm::new(vars, arrays);
    let mut out = String::new();
    assert_eq!(vm.run(&mut out, &program), Err(VmError::ArrayIndexOverflow));
}

#[test]
fn multibyte_value_slices_by_grapheme() {
    let vars = vec![("word".to_string(), "h\u{e9}llo".to_string())];
    let mut vm = Vm::new(vars, Vec::new());
    let code = "{{ word[0:100] }}";
    let nodes = ast(code).unwrap();
    let program = gen_ir(code, nodes).unwrap();
    let mut out = String::new();
    vm.run(&mut out, &program).unwrap();
    assert_eq!(out, "h\u{e9}llo");
}

#[test]
fn clear_state_allows_rerun() {
    let code = "{{ name }}";
    let nodes = ast(code).unwrap();
    let program = gen_ir(code, nodes).unwrap();
    let (vars, arrays) = tables();
    let mut vm = Vm::new(vars, arrays);
    let mut out = String::new();
    vm.run(&mut out, &program).unwrap();
    vm.clear_state();
    vm.run(&mut out, &program).unwrap();
    assert_eq!(out, "cakecake");
}
