//! End-to-end tests: source text through the whole pipeline.

use lox::errors::LoxError;
use lox::errors::ParseError;
use lox::errors::ResolveError;
use lox::errors::RuntimeError;
use lox::errors::ScanError;
use lox::interpreter::run;
use lox::interpreter::Interpreter;
use lox::native::Host;

struct TestHost {
    clock_value: i64,
    inputs: Vec<String>,
    cleared: usize,
}

impl TestHost {
    fn new() -> TestHost {
        TestHost { clock_value: 1000, inputs: Vec::new(), cleared: 0 }
    }
}

impl Host for TestHost {
    fn clock(&mut self) -> Result<i64, String> {
        Ok(self.clock_value)
    }

    fn clear(&mut self) -> Result<(), String> {
        self.cleared += 1;
        Ok(())
    }

    fn input(&mut self, _prompt: &str) -> Result<String, String> {
        if self.inputs.is_empty() {
            Err("no input queued".to_string())
        } else {
            Ok(self.inputs.remove(0))
        }
    }
}

fn run_source(src: &str) -> (Interpreter, Result<(), LoxError>) {
    let mut interpreter = Interpreter::new();
    let mut host = TestHost::new();
    let r = run(src, &mut interpreter, &mut host, 1_000_000);
    (interpreter, r)
}

fn output_of(src: &str) -> Vec<String> {
    let (interpreter, r) = run_source(src);
    assert!(r.is_ok(), "program failed: {:?}", r.err());
    interpreter.output
}

#[test]
fn prints_a_number() {
    assert_eq!(output_of("print(42);"), vec!["42"]);
}

#[test]
fn shadowing_leaves_outer_binding_alone() {
    let out = output_of("var a = 1; { var a = 2; print(a); } print(a);");
    assert_eq!(out, vec!["2", "1"]);
}

#[test]
fn shadowing_inner_assignment_does_not_leak() {
    let out = output_of("var a = 1; { var a = 2; a = 3; print(a); } print(a);");
    assert_eq!(out, vec!["3", "1"]);
}

#[test]
fn closure_shares_captured_counter() {
    let src = "fun make(){ var n = 0; fun inc(){ n = n + 1; return n; } return inc; } \
               var c = make(); print(c()); print(c());";
    assert_eq!(output_of(src), vec!["1", "2"]);
}

#[test]
fn two_closures_have_separate_counters() {
    let src = "fun make(){ var n = 0; fun inc(){ n = n + 1; return n; } return inc; } \
               var c = make(); var d = make(); print(c()); print(c()); print(d());";
    assert_eq!(output_of(src), vec!["1", "2", "1"]);
}

#[test]
fn recursion_factorial_of_five_is_120() {
    let src = "fun f(n) { if (n <= 1) return 1; return n * f(n - 1); } print(f(5));";
    assert_eq!(output_of(src), vec!["120"]);
}

#[test]
fn self_referencing_initializer_fails_at_resolution() {
    let (interpreter, r) = run_source("{ var a = a; }");
    match r {
        Err(LoxError::Resolve(ResolveError::SelfReferencingInitializer { name })) => {
            assert_eq!(name, "a");
        },
        other => panic!("expected a resolution error, got {:?}", other),
    }
    // resolution fails before any evaluation: nothing was printed
    assert!(interpreter.output.is_empty());
}

#[test]
fn top_level_self_referencing_initializer_fails_at_resolution() {
    let (interpreter, r) = run_source("var a = a;");
    match r {
        Err(LoxError::Resolve(ResolveError::SelfReferencingInitializer { name })) => {
            assert_eq!(name, "a");
        },
        other => panic!("expected a resolution error, got {:?}", other),
    }
    assert!(interpreter.output.is_empty());
}

#[test]
fn top_level_self_reference_fails_even_when_the_global_exists() {
    let mut interpreter = Interpreter::new();
    let mut host = TestHost::new();
    assert!(run("var a = 1;", &mut interpreter, &mut host, 1000).is_ok());
    let r = run("var a = a;", &mut interpreter, &mut host, 1000);
    match r {
        Err(LoxError::Resolve(ResolveError::SelfReferencingInitializer { name })) => {
            assert_eq!(name, "a");
        },
        other => panic!("expected a resolution error, got {:?}", other),
    }
}

#[test]
fn initializer_reading_another_variable_is_fine() {
    assert_eq!(output_of("var a = 1; var b = a + 1; print(b);"), vec!["2"]);
}

#[test]
fn return_outside_function_fails_at_resolution() {
    let (_, r) = run_source("return 1;");
    match r {
        Err(LoxError::Resolve(ResolveError::ReturnOutsideFunction)) => {},
        other => panic!("expected a resolution error, got {:?}", other),
    }
}

#[test]
fn arity_mismatch_too_few_names_the_function() {
    let (_, r) = run_source("fun f(a, b) { return a; } f(1);");
    match r {
        Err(LoxError::Runtime(RuntimeError::ArityMismatch { name, expected, actual, .. })) => {
            assert_eq!(name, "f");
            assert_eq!(expected, 2);
            assert_eq!(actual, 1);
        },
        other => panic!("expected an arity error, got {:?}", other),
    }
}

#[test]
fn arity_mismatch_too_many() {
    let (_, r) = run_source("fun f(a, b) { return a; } f(1, 2, 3);");
    match r {
        Err(LoxError::Runtime(RuntimeError::ArityMismatch { expected, actual, .. })) => {
            assert_eq!(expected, 2);
            assert_eq!(actual, 3);
        },
        other => panic!("expected an arity error, got {:?}", other),
    }
}

#[test]
fn array_append_one_past_end() {
    let out = output_of("var a = [1, 2]; a[2] = 3; print(a); print(a == [1, 2, 3]);");
    assert_eq!(out, vec!["[1, 2, 3]", "true"]);
}

#[test]
fn array_assign_far_out_of_bounds_fails() {
    let (_, r) = run_source("var a = [1, 2]; a[5] = 1;");
    match r {
        Err(LoxError::Runtime(RuntimeError::AssignOutOfBounds { position, len })) => {
            assert_eq!(position, 5);
            assert_eq!(len, 2);
        },
        other => panic!("expected an out-of-bounds error, got {:?}", other),
    }
}

#[test]
fn array_update_in_place() {
    assert_eq!(output_of("var a = [1, 2, 3]; a[1] = 9; print(a);"), vec!["[1, 9, 3]"]);
}

#[test]
fn array_read_and_out_of_bounds() {
    assert_eq!(output_of("var a = [10, 20]; print(a[1]);"), vec!["20"]);
    let (_, r) = run_source("var a = [10, 20]; print(a[2]);");
    match r {
        Err(LoxError::Runtime(RuntimeError::ReadOutOfBounds { position, len })) => {
            assert_eq!(position, 2);
            assert_eq!(len, 2);
        },
        other => panic!("expected an out-of-bounds error, got {:?}", other),
    }
}

#[test]
fn string_index_read() {
    assert_eq!(output_of("var s = \"abc\"; print(s[1]);"), vec!["b"]);
}

#[test]
fn string_index_replace_in_place() {
    assert_eq!(output_of("var s = \"abc\"; s[1] = \"X\"; print(s);"), vec!["aXc"]);
}

#[test]
fn string_append_at_end() {
    assert_eq!(output_of("var s = \"ab\"; s[2] = \"c\"; print(s);"), vec!["abc"]);
}

#[test]
fn string_mid_write_longer_than_one_fails() {
    let (_, r) = run_source("var s = \"abc\"; s[1] = \"XY\";");
    match r {
        Err(LoxError::Runtime(RuntimeError::StringAssignTooLong)) => {},
        other => panic!("expected a too-long write error, got {:?}", other),
    }
}

#[test]
fn string_read_out_of_bounds_fails() {
    let (_, r) = run_source("var s = \"abc\"; print(s[10]);");
    match r {
        Err(LoxError::Runtime(RuntimeError::ReadOutOfBounds { position, len })) => {
            assert_eq!(position, 10);
            assert_eq!(len, 3);
        },
        other => panic!("expected an out-of-bounds error, got {:?}", other),
    }
}

#[test]
fn zero_is_falsy() {
    assert_eq!(output_of("if (0) print(\"no\"); else print(\"yes\");"), vec!["yes"]);
}

#[test]
fn empty_string_is_falsy() {
    assert_eq!(output_of("if (\"\") print(\"no\"); else print(\"yes\");"), vec!["yes"]);
}

#[test]
fn empty_array_is_falsy() {
    assert_eq!(output_of("if ([]) print(\"no\"); else print(\"yes\");"), vec!["yes"]);
}

#[test]
fn nonzero_and_nonempty_are_truthy() {
    let out = output_of(
        "if (7) print(\"a\"); if (\"x\") print(\"b\"); if ([0]) print(\"c\"); if (nil) print(\"d\");",
    );
    assert_eq!(out, vec!["a", "b", "c"]);
}

#[test]
fn equality_across_types_is_false_not_an_error() {
    assert_eq!(output_of("print((1 == \"1\") == false);"), vec!["true"]);
    assert_eq!(output_of("print(1 == \"1\");"), vec!["false"]);
    assert_eq!(output_of("print(nil == 0);"), vec!["false"]);
    assert_eq!(output_of("print(1 != \"1\");"), vec!["true"]);
}

#[test]
fn logical_operators_return_operand_values() {
    assert_eq!(output_of("print(0 or 5);"), vec!["5"]);
    assert_eq!(output_of("print(1 or 2);"), vec!["1"]);
    assert_eq!(output_of("print(nil and 3);"), vec!["nil"]);
    assert_eq!(output_of("print(1 and 2);"), vec!["2"]);
}

#[test]
fn string_number_concatenation_both_ways() {
    assert_eq!(output_of("print(\"a\" + 1);"), vec!["a1"]);
    assert_eq!(output_of("print(1 + \"a\");"), vec!["1a"]);
    assert_eq!(output_of("print(\"a\" + \"b\");"), vec!["ab"]);
}

#[test]
fn string_plus_non_number_is_a_type_error() {
    let (_, r) = run_source("print(\"a\" + true);");
    match r {
        Err(LoxError::Runtime(RuntimeError::BinaryType { .. })) => {},
        other => panic!("expected a type error, got {:?}", other),
    }
    let (_, r2) = run_source("print(nil + \"a\");");
    match r2 {
        Err(LoxError::Runtime(RuntimeError::BinaryType { .. })) => {},
        other => panic!("expected a type error, got {:?}", other),
    }
}

#[test]
fn division_truncates_toward_zero() {
    assert_eq!(output_of("print(7 / 2);"), vec!["3"]);
    assert_eq!(output_of("print(0 - 7 / 2);"), vec!["-3"]);
    assert_eq!(output_of("print((0 - 7) / 2);"), vec!["-3"]);
    assert_eq!(output_of("print((0 - 7) % 2);"), vec!["-1"]);
    assert_eq!(output_of("print(7 % 2);"), vec!["1"]);
}

#[test]
fn division_by_zero_is_an_error() {
    let (_, r) = run_source("print(1 / 0);");
    match r {
        Err(LoxError::Runtime(RuntimeError::DivisionByZero { .. })) => {},
        other => panic!("expected a division error, got {:?}", other),
    }
}

#[test]
fn addition_overflow_is_an_error() {
    let (_, r) = run_source("print(9223372036854775807 + 1);");
    match r {
        Err(LoxError::Runtime(RuntimeError::Overflow { .. })) => {},
        other => panic!("expected an overflow error, got {:?}", other),
    }
}

#[test]
fn comparison_needs_numbers() {
    let (_, r) = run_source("print(\"a\" < \"b\");");
    match r {
        Err(LoxError::Runtime(RuntimeError::BinaryType { .. })) => {},
        other => panic!("expected a type error, got {:?}", other),
    }
}

#[test]
fn negation_needs_a_number() {
    let (_, r) = run_source("print(-\"a\");");
    match r {
        Err(LoxError::Runtime(RuntimeError::NegationType { .. })) => {},
        other => panic!("expected a negation type error, got {:?}", other),
    }
}

#[test]
fn bang_negates_truthiness() {
    assert_eq!(output_of("print(!0); print(!1); print(!\"\"); print(!nil);"),
        vec!["true", "false", "true", "true"]);
}

#[test]
fn undefined_variable_read_fails() {
    let (_, r) = run_source("print(nothing);");
    match r {
        Err(LoxError::Runtime(RuntimeError::UndefinedVariable { name })) => {
            assert_eq!(name, "nothing");
        },
        other => panic!("expected an undefined-variable error, got {:?}", other),
    }
}

#[test]
fn assigning_an_undeclared_global_fails() {
    let (_, r) = run_source("ghostly = 1;");
    match r {
        Err(LoxError::Runtime(RuntimeError::UndefinedVariable { name })) => {
            assert_eq!(name, "ghostly");
        },
        other => panic!("expected an undefined-variable error, got {:?}", other),
    }
}

#[test]
fn calling_a_number_fails() {
    let (_, r) = run_source("var a = 3; a(1);");
    match r {
        Err(LoxError::Runtime(RuntimeError::NotCallable { .. })) => {},
        other => panic!("expected a not-callable error, got {:?}", other),
    }
}

#[test]
fn indexing_a_number_fails() {
    let (_, r) = run_source("var a = 3; print(a[0]);");
    match r {
        Err(LoxError::Runtime(RuntimeError::CannotIndex { .. })) => {},
        other => panic!("expected a cannot-index error, got {:?}", other),
    }
}

#[test]
fn index_must_be_a_number() {
    let (_, r) = run_source("var a = [1]; print(a[\"x\"]);");
    match r {
        Err(LoxError::Runtime(RuntimeError::IndexNotNumber { .. })) => {},
        other => panic!("expected an index-type error, got {:?}", other),
    }
}

#[test]
fn while_loop_sums() {
    let src = "var s = 0; var i = 1; while (i <= 5) { s = s + i; i = i + 1; } print(s);";
    assert_eq!(output_of(src), vec!["15"]);
}

#[test]
fn for_loop_desugars_to_while() {
    let src = "var s = 0; for (var i = 1; i <= 4; i = i + 1) { s = s + i; } print(s);";
    assert_eq!(output_of(src), vec!["10"]);
}

#[test]
fn infinite_loop_exhausts_the_budget() {
    let mut interpreter = Interpreter::new();
    let mut host = TestHost::new();
    let r = run("while (1) { }", &mut interpreter, &mut host, 100);
    match r {
        Err(LoxError::Runtime(RuntimeError::BudgetExhausted)) => {},
        other => panic!("expected the budget to run out, got {:?}", other),
    }
}

#[test]
fn runaway_recursion_exhausts_the_budget() {
    let mut interpreter = Interpreter::new();
    let mut host = TestHost::new();
    let r = run("fun f() { return f(); } f();", &mut interpreter, &mut host, 100);
    match r {
        Err(LoxError::Runtime(RuntimeError::BudgetExhausted)) => {},
        other => panic!("expected the budget to run out, got {:?}", other),
    }
}

#[test]
fn syntax_error_reports_expected_token() {
    let (_, r) = run_source("if (1 { print(2); }");
    match r {
        Err(LoxError::Parse(errors)) => {
            assert!(!errors.is_empty());
            assert!(matches!(errors[0], ParseError::Expected { .. }));
        },
        other => panic!("expected syntax errors, got {:?}", other),
    }
}

#[test]
fn several_syntax_errors_in_one_parse() {
    let (_, r) = run_source("var = 1; var = 2;");
    match r {
        Err(LoxError::Parse(errors)) => {
            assert_eq!(errors.len(), 2);
        },
        other => panic!("expected syntax errors, got {:?}", other),
    }
}

#[test]
fn unterminated_string_is_a_scan_error() {
    let (_, r) = run_source("var s = \"oops");
    match r {
        Err(LoxError::Scan(ScanError::UnterminatedString { .. })) => {},
        other => panic!("expected a scan error, got {:?}", other),
    }
}

#[test]
fn unexpected_character_is_a_scan_error() {
    let (_, r) = run_source("var a = 1 # 2;");
    match r {
        Err(LoxError::Scan(ScanError::UnexpectedChar { c, .. })) => {
            assert_eq!(c, '#');
        },
        other => panic!("expected a scan error, got {:?}", other),
    }
}

#[test]
fn comments_are_skipped_and_nest() {
    let src = "// a line comment\nprint(1); /* block /* nested */ still comment */ print(2);";
    assert_eq!(output_of(src), vec!["1", "2"]);
}

#[test]
fn unterminated_block_comment_is_a_scan_error() {
    let (_, r) = run_source("print(1); /* runs off");
    match r {
        Err(LoxError::Scan(ScanError::UnterminatedComment { .. })) => {},
        other => panic!("expected a scan error, got {:?}", other),
    }
}

#[test]
fn fractional_literal_is_rejected() {
    let (_, r) = run_source("print(3.14);");
    match r {
        Err(LoxError::Parse(errors)) => {
            assert!(matches!(errors[0], ParseError::BadNumberLiteral { .. }));
        },
        other => panic!("expected a number-literal error, got {:?}", other),
    }
}

#[test]
fn clock_native_reports_the_host_time() {
    let mut interpreter = Interpreter::new();
    let mut host = TestHost::new();
    host.clock_value = 777;
    let r = run("print(clock());", &mut interpreter, &mut host, 1000);
    assert!(r.is_ok());
    assert_eq!(interpreter.output, vec!["777"]);
}

#[test]
fn input_native_reads_a_line_from_the_host() {
    let mut interpreter = Interpreter::new();
    let mut host = TestHost::new();
    host.inputs.push("hello".to_string());
    let r = run("print(input(\"? \"));", &mut interpreter, &mut host, 1000);
    assert!(r.is_ok());
    assert_eq!(interpreter.output, vec!["hello"]);
}

#[test]
fn host_failure_surfaces_as_a_native_error() {
    let mut interpreter = Interpreter::new();
    let mut host = TestHost::new();
    let r = run("input(\"? \");", &mut interpreter, &mut host, 1000);
    match r {
        Err(LoxError::Runtime(RuntimeError::NativeError { message })) => {
            assert_eq!(message, "no input queued");
        },
        other => panic!("expected a native error, got {:?}", other),
    }
}

#[test]
fn parse_native_converts_between_types() {
    assert_eq!(output_of("print(parse(\"42\", \"number\") + 1);"), vec!["43"]);
    assert_eq!(output_of("print(parse(5, \"string\") + \"x\");"), vec!["5x"]);
    assert_eq!(output_of("print(parse(\"true\", \"boolean\"));"), vec!["true"]);
    assert_eq!(output_of("print(parse(0, \"boolean\"));"), vec!["false"]);
    assert_eq!(output_of("print(parse(nil, \"string\"));"), vec!["nil"]);
    assert_eq!(output_of("print(parse(\"7\", \"NUMBER\") + 0);"), vec!["7"]);
}

#[test]
fn parse_native_rejects_unknown_target_types() {
    let (_, r) = run_source("parse(1, \"widget\");");
    match r {
        Err(LoxError::Runtime(RuntimeError::ParseTypeUnknown)) => {},
        other => panic!("expected an unknown-type error, got {:?}", other),
    }
}

#[test]
fn parse_native_rejects_undefined_pairings() {
    let (_, r) = run_source("parse(true, \"number\");");
    match r {
        Err(LoxError::Runtime(RuntimeError::ParseUndefined { .. })) => {},
        other => panic!("expected an undefined-conversion error, got {:?}", other),
    }
}

#[test]
fn parse_native_rejects_bad_number_text() {
    let (_, r) = run_source("parse(\"abc\", \"number\");");
    match r {
        Err(LoxError::Runtime(RuntimeError::ParseValueFormat { .. })) => {},
        other => panic!("expected a value-format error, got {:?}", other),
    }
}

#[test]
fn globals_persist_across_runs_of_one_interpreter() {
    let mut interpreter = Interpreter::new();
    let mut host = TestHost::new();
    assert!(run("var a = 41;", &mut interpreter, &mut host, 1000).is_ok());
    assert!(run("print(a + 1);", &mut interpreter, &mut host, 1000).is_ok());
    assert_eq!(interpreter.output, vec!["42"]);
}

#[test]
fn function_values_print_their_signature() {
    assert_eq!(output_of("fun f(a) { return a; } print(f);"), vec!["<function> f"]);
    assert_eq!(output_of("print(print);"), vec!["<native function> print"]);
}

#[test]
fn nested_arrays_print_and_compare_structurally() {
    assert_eq!(output_of("print([[1, 2], [3]]);"), vec!["[[1, 2], [3]]"]);
    assert_eq!(output_of("print([[1], 2] == [[1], 2]);"), vec!["true"]);
    assert_eq!(output_of("print([1, 2] == [1, 3]);"), vec!["false"]);
    assert_eq!(output_of("print([1] == [1, 1]);"), vec!["false"]);
}

#[test]
fn return_short_circuits_remaining_statements() {
    let src = "fun f() { print(\"before\"); return 1; print(\"after\"); } print(f());";
    assert_eq!(output_of(src), vec!["before", "1"]);
}

#[test]
fn return_unwinds_out_of_a_loop_in_a_function() {
    let src = "fun f() { var i = 0; while (1) { i = i + 1; if (i == 3) return i; } } print(f());";
    assert_eq!(output_of(src), vec!["3"]);
}

#[test]
fn function_without_return_yields_nil() {
    assert_eq!(output_of("fun f() { } print(f());"), vec!["nil"]);
}

#[test]
fn resolution_of_the_same_program_twice_records_the_same_depths() {
    let src = "var a = 1; { var a = 2; { print(a); } } fun f(x) { return x; } print(f(a));";
    let mut scanner1 = lox::scanner::Scanner::new(src);
    let tokens1 = scanner1.scan_tokens().unwrap();
    let mut parser1 = lox::parser::Parser::new(tokens1);
    let stmts1 = parser1.parse().unwrap();
    let mut resolver_a = lox::resolver::Resolver::new();
    let locals_a = resolver_a.resolve(&stmts1).unwrap();
    let mut resolver_b = lox::resolver::Resolver::new();
    let locals_b = resolver_b.resolve(&stmts1).unwrap();
    assert_eq!(locals_a, locals_b);
}

#[test]
fn clear_native_reaches_the_host() {
    let mut interpreter = Interpreter::new();
    let mut host = TestHost::new();
    let r = run("clear();", &mut interpreter, &mut host, 1000);
    assert!(r.is_ok());
    assert_eq!(host.cleared, 1);
}
