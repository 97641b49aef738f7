use dokusy::interpreter::{values_equal, ExecutionResult, Failure, Interpreter, RuntimeError, Value};
use dokusy::lexer::Lexer;
use dokusy::parser::Parser;

fn run(src: &str) -> Result<i64, String> {
    let tokens = Lexer::new(src).tokenize().map_err(|e| e.render())?;
    let program = Parser::new(tokens).parse_program().map_err(|e| e.render())?;
    let mut interpreter = Interpreter::new();
    let result = interpreter.run_program(program).map_err(|e| e.render())?;
    Ok(result.exit_code)
}

fn run_checked(src: &str) -> Result<ExecutionResult, Failure> {
    let tokens = Lexer::new(src).tokenize().expect("lex failed");
    let program = Parser::new(tokens).parse_program().expect("parse failed");
    Interpreter::new().run_program_checked(program)
}

fn runtime_error(src: &str) -> RuntimeError {
    match run_checked(src) {
        Err(Failure::Error(e)) => e,
        other => panic!("expected a runtime error, got {:?}", other),
    }
}

#[test]
fn evaluates_arithmetic_precedence() {
    let src = "fn main() -> i64 { return 1 + 2 * 3; }";
    let code = run(src).expect("must run");
    assert_eq!(code, 7);
}

#[test]
fn evaluates_if_and_while() {
    let src = r#"
        fn main() -> i64 {
            let mut sum = 0;
            let mut i = 0;
            while i < 5 {
                sum = sum + i;
                i = i + 1;
            }

            if sum == 10 {
                return 1;
            } else {
                return 0;
            }
        }
    "#;

    let code = run(src).expect("must run");
    assert_eq!(code, 1);
}

#[test]
fn calls_function() {
    let src = r#"
        fn add(a: i64, b: i64) -> i64 {
            return a + b;
        }

        fn main() -> i64 {
            return add(2, 3);
        }
    "#;
    let code = run(src).expect("must run");
    assert_eq!(code, 5);
}

#[test]
fn errors_on_assign_to_immutable() {
    let src = r#"
        fn main() -> i64 {
            let x = 1;
            x = 2;
            return x;
        }
    "#;

    let err = run(src).expect_err("must fail");
    assert!(err.contains("immutable variable"));
}

#[test]
fn print_appends_lines_in_order() {
    let result = run_checked(
        r#"fn main() -> i64 {
            print(1 - 43);
            print("a" + "b");
            print(true);
            print(print(false));
            return 3;
        }"#,
    )
    .expect("must run");
    assert_eq!(result.exit_code, 3);
    assert_eq!(result.output, "-42\nab\ntrue\nfalse\n()\n");
}

#[test]
fn block_scope_is_popped() {
    let src = "fn main() -> i64 { { let x = 1; } let x = 2; { let y = x; x = 5; } return x; }";
    let err = run_checked(src).expect_err("`x` is immutable");
    assert!(matches!(err, Failure::Error(_)));
    let src = "fn main() -> i64 { { let x = 1; } let mut x = 2; { let x = 9; } { x = x + 5; } return x; }";
    assert_eq!(run(src), Ok(7));
}

#[test]
fn called_function_sees_caller_variables() {
    let src = r#"
        fn bump() -> () { n = n + 1; return print(n); }
        fn main() -> i64 { let mut n = 40; bump(); bump(); return n; }
    "#;
    let result = run_checked(src).expect("must run");
    assert_eq!(result.exit_code, 42);
    assert_eq!(result.output, "41\n42\n");
}

#[test]
fn recursion_runs() {
    let src = r#"
        fn fact(n: i64) -> i64 { if n <= 1 { return 1; } return n * fact(n - 1); }
        fn main() -> i64 { return fact(20); }
    "#;
    assert_eq!(run(src), Ok(2432902008176640000));
}

#[test]
fn logical_operators_short_circuit() {
    let src = r#"fn main() -> i64 {
        if false && 1 / 0 == 0 { return 1; }
        if true || 1 / 0 == 0 { return 2; }
        return 3;
    }"#;
    assert_eq!(run(src), Ok(2));
}

#[test]
fn equality_compares_across_types() {
    let src = r#"fn main() -> i64 {
        if 1 == true { return 1; }
        if "a" + "b" != "ab" { return 2; }
        if print(0) == print(0) && 2 >= 2 && 3 > 2 && !(2 <= 1) { return 3; }
        return 4;
    }"#;
    assert_eq!(run(src), Ok(3));
}

#[test]
fn division_truncates_toward_zero() {
    assert_eq!(run("fn main() -> i64 { return -7 / 2; }"), Ok(-3));
    assert_eq!(run("fn main() -> i64 { return 7 / -2; }"), Ok(-3));
}

#[test]
fn reports_division_by_zero() {
    let e = runtime_error("fn main() -> i64 {\n  return 1 / 0;\n}");
    assert_eq!(e.message, "division by zero");
    assert_eq!((e.line, e.column), (2, 10));
    assert_eq!(e.render(), "[runtime] division by zero at line 2, column 10");
}

#[test]
fn reports_missing_main() {
    let e = runtime_error("fn helper() -> i64 { return 1; }");
    assert_eq!(e.message, "function `main` is not defined");
    assert_eq!((e.line, e.column), (1, 1));
}

#[test]
fn reports_duplicate_function() {
    let e = runtime_error("fn f() { }\nfn main() -> i64 { return 0; }\n  fn f() { }");
    assert_eq!(e.message, "duplicate function `f`");
    assert_eq!((e.line, e.column), (3, 3));
}

#[test]
fn reports_main_of_wrong_type() {
    let e = runtime_error("fn main() -> i64 { return true; }");
    assert_eq!(e.message, "function `main` returned wrong type");
    let e = runtime_error("fn f() -> string { return 1; }\nfn main() -> i64 { f(); return 0; }");
    assert_eq!(e.message, "function `f` returned wrong type");
    assert_eq!((e.line, e.column), (2, 20));
    let e = runtime_error("fn main() -> bool { return true; }");
    assert_eq!(e.message, "`main` must return i64");
    let e = runtime_error("fn main() -> () { return print(1); }");
    assert_eq!(e.message, "`main` must return i64");
}

#[test]
fn reports_missing_return() {
    let e = runtime_error("fn main() -> i64 { let x = 1; }");
    assert_eq!(e.message, "function `main` ended without `return`");
    assert_eq!((e.line, e.column), (1, 1));
}

#[test]
fn reports_arity_mismatch() {
    let e = runtime_error("fn f(a: i64, b: i64) -> i64 { return a; }\nfn main() -> i64 { return f(1); }");
    assert_eq!(e.message, "function `f` expects 2 args but got 1");
    assert_eq!((e.line, e.column), (2, 27));
    let e = runtime_error("fn main() -> i64 { print(1, 2); return 0; }");
    assert_eq!(e.message, "`print` expects exactly 1 argument");
}

#[test]
fn reports_undefined_names() {
    let e = runtime_error("fn main() -> i64 { return nope(); }");
    assert_eq!(e.message, "undefined function `nope`");
    let e = runtime_error("fn main() -> i64 { return y; }");
    assert_eq!(e.message, "undefined variable `y`");
    let e = runtime_error("fn main() -> i64 { y = 1; return 0; }");
    assert_eq!(e.message, "undefined variable `y`");
}

#[test]
fn reports_redeclaration() {
    let e = runtime_error("fn main() -> i64 { let x = 1; let x = 2; return x; }");
    assert_eq!(e.message, "variable `x` already declared in this scope");
    let e = runtime_error("fn f(a: i64, a: i64) -> i64 { return a; } fn main() -> i64 { return f(1, 2); }");
    assert_eq!(e.message, "variable `a` already declared in this scope");
}

#[test]
fn reports_operand_type_errors() {
    let cases = [
        ("return 1 + true;", "`+` expects (i64, i64) or (string, string)"),
        ("return 1 - \"a\";", "`-` expects i64"),
        ("return 1 * false;", "`*` expects i64"),
        ("return true / 1;", "`/` expects i64"),
        ("return 1 < true;", "`<` expects i64"),
        ("return 1 <= true;", "`<=` expects i64"),
        ("return 1 > true;", "`>` expects i64"),
        ("return 1 >= true;", "`>=` expects i64"),
        ("return !1;", "`!` expects bool"),
        ("return -true;", "unary `-` expects i64"),
        ("if 1 && true { } return 0;", "`&&` expects bool operands"),
        ("if true && 1 { } return 0;", "`&&` expects bool operands"),
        ("if false || 1 { } return 0;", "`||` expects bool operands"),
        ("if 1 { } return 0;", "if condition must be bool"),
        ("while 0 { } return 0;", "while condition must be bool"),
    ];
    for (body, message) in cases {
        let src = format!("fn main() -> i64 {{ {} }}", body);
        let e = runtime_error(&src);
        assert_eq!(e.message, message, "for `{}`", body);
    }
}

#[test]
fn overflow_is_reported() {
    let src = "fn main() -> i64 { return 9223372036854775807 + 1; }";
    assert!(matches!(run_checked(src), Err(Failure::Overflow)));
    let src = "fn main() -> i64 { let m = -9223372036854775807 - 1; return m / -1; }";
    assert!(matches!(run_checked(src), Err(Failure::Overflow)));
    let src = "fn main() -> i64 { let m = -9223372036854775807 - 1; return -m; }";
    assert!(matches!(run_checked(src), Err(Failure::Overflow)));
    let src = "fn main() -> i64 { return -9223372036854775807 - 1; }";
    assert_eq!(run(src), Ok(i64::MIN));
}

#[test]
fn runs_do_not_depend_on_earlier_runs() {
    let mut interpreter = Interpreter::new();
    let first = Parser::new(Lexer::new("fn main() -> i64 { print(1); return 1; }").tokenize().unwrap())
        .parse_program()
        .unwrap();
    let second = Parser::new(Lexer::new("fn main() -> i64 { return 2; }").tokenize().unwrap())
        .parse_program()
        .unwrap();
    let r1 = interpreter.run_program(first).expect("must run");
    let r2 = interpreter.run_program(second).expect("must run");
    assert_eq!(r1, ExecutionResult { exit_code: 1, output: "1\n".to_string() });
    assert_eq!(r2, ExecutionResult { exit_code: 2, output: String::new() });
}

#[test]
fn values_render_as_print_shows_them() {
    assert_eq!(Value::Int(-120).render(), "-120");
    assert_eq!(Value::Int(i64::MIN).render(), "-9223372036854775808");
    assert_eq!(Value::Bool(false).render(), "false");
    assert_eq!(Value::String("hi".to_string()).render(), "hi");
    assert_eq!(Value::Unit.render(), "()");
    let v = Value::String("x".to_string());
    assert_eq!(v.duplicate(), v);
}

#[test]
fn long_loops_finish_within_the_budget() {
    let src = r#"fn main() -> i64 {
        let mut i = 0;
        let mut sum = 0;
        while i < 200000 { sum = sum + i; i = i + 1; }
        return sum;
    }"#;
    assert_eq!(run(src), Ok(19999900000));
}

#[test]
fn returning_from_a_loop_leaves_the_function() {
    let src = r#"
        fn first_square_above(n: i64) -> i64 {
            let mut i = 0;
            while true { if i * i > n { return i; } i = i + 1; }
            return -1;
        }
        fn main() -> i64 { return first_square_above(50); }
    "#;
    assert_eq!(run(src), Ok(8));
}

#[test]
fn values_equal_is_structural() {
    assert!(values_equal(&Value::Int(3), &Value::Int(3)));
    assert!(!values_equal(&Value::Int(1), &Value::Bool(true)));
    assert!(!values_equal(&Value::String("1".to_string()), &Value::Int(1)));
    assert!(values_equal(&Value::String("ab".to_string()), &Value::String("ab".to_string())));
    assert!(!values_equal(&Value::String("ab".to_string()), &Value::String("a".to_string())));
    assert!(values_equal(&Value::Unit, &Value::Unit));
    assert!(!values_equal(&Value::Bool(false), &Value::Unit));
}

#[test]
fn a_failed_run_leaves_nothing_behind() {
    let mut interpreter = Interpreter::new();
    let parse = |src: &str| Parser::new(Lexer::new(src).tokenize().unwrap()).parse_program().unwrap();
    let failing = parse("fn helper() -> i64 { return 7; } fn main() -> i64 { let x = 1; print(x); return 9223372036854775807 + x; }");
    assert!(matches!(interpreter.run_program_checked(failing), Err(Failure::Overflow)));
    let failing = parse("fn main() -> i64 { print(5); return y; }");
    assert!(matches!(interpreter.run_program_checked(failing), Err(Failure::Error(_))));
    let next = parse("fn main() -> i64 { print(2); return 2; }");
    let fresh = Interpreter::new().run_program(parse("fn main() -> i64 { print(2); return 2; }"));
    let r = interpreter.run_program(next);
    assert_eq!(r, fresh);
    assert_eq!(r, Ok(ExecutionResult { exit_code: 2, output: "2\n".to_string() }));
    let uses_old = parse("fn main() -> i64 { return helper(); }");
    let e = interpreter.run_program(uses_old).expect_err("helper is gone");
    assert_eq!(e.message, "undefined function `helper`");
}

#[test]
fn a_block_keeps_outer_bindings() {
    let src = r#"fn main() -> i64 {
        let a = 1;
        let mut b = 2;
        { let a = 10; let c = 3; b = a + c; }
        if a == 1 { return b; }
        return 0;
    }"#;
    assert_eq!(run(src), Ok(13));
    let e = runtime_error("fn main() -> i64 { { let c = 3; } return c; }");
    assert_eq!(e.message, "undefined variable `c`");
}
