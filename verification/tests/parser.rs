use dokusy::ast::{BinaryOp, ExprKind, Program, StmtKind, TypeName, UnaryOp};
use dokusy::lexer::Lexer;
use dokusy::parser::{Parser, ParserError};

fn parse(input: &str) -> Program {
    let tokens = Lexer::new(input).tokenize().expect("lex failed");
    Parser::new(tokens).parse_program().expect("parse failed")
}

fn parse_err(input: &str) -> ParserError {
    let tokens = Lexer::new(input).tokenize().expect("lex failed");
    Parser::new(tokens).parse_program().expect_err("must fail")
}

#[test]
fn parses_fn_and_return() {
    let program = parse("fn main() -> i64 { return 1; }");
    assert_eq!(program.functions.len(), 1);
    assert_eq!(program.functions[0].name, "main");
}

#[test]
fn parses_operator_precedence() {
    let program = parse("fn main() -> i64 { return 1 + 2 * 3; }");
    let body = &program.functions[0].body;
    let StmtKind::Block(stmts) = &body.kind else {
        panic!("expected block");
    };
    let StmtKind::Return(expr) = &stmts[0].kind else {
        panic!("expected return");
    };
    let ExprKind::Binary { left: _, op, right } = &expr.kind else {
        panic!("expected binary");
    };
    assert_eq!(*op, BinaryOp::Add);
    let ExprKind::Binary { op: rhs_op, .. } = &right.kind else {
        panic!("expected rhs binary");
    };
    assert_eq!(*rhs_op, BinaryOp::Mul);
}

#[test]
fn parses_if_else() {
    let program = parse("fn main() -> i64 { if true { return 1; } else { return 2; } }");
    let StmtKind::Block(stmts) = &program.functions[0].body.kind else {
        panic!("expected block");
    };
    assert!(matches!(stmts[0].kind, StmtKind::If { .. }));
}

#[test]
fn empty_source_has_no_functions() {
    assert_eq!(parse("").functions.len(), 0);
}

#[test]
fn parses_parameters_and_types() {
    let program = parse("fn f(a: i64, b: bool, c: string) -> () { return a; } fn g() { }");
    let f = &program.functions[0];
    assert_eq!(f.params.len(), 3);
    assert_eq!(f.params[0].name, "a");
    assert_eq!(f.params[0].ty, TypeName::I64);
    assert_eq!(f.params[1].ty, TypeName::Bool);
    assert_eq!(f.params[2].ty, TypeName::String);
    assert_eq!((f.params[2].span.line, f.params[2].span.column), (1, 23));
    assert_eq!(f.return_type, TypeName::Unit);
    assert_eq!((f.span.line, f.span.column), (1, 1));
    assert_eq!(program.functions[1].return_type, TypeName::Unit);
}

#[test]
fn binary_operators_associate_to_the_left() {
    let program = parse("fn main() { x = 10 - 3 - 2; }");
    let StmtKind::Block(stmts) = &program.functions[0].body.kind else {
        panic!("expected block");
    };
    let StmtKind::Assign { name, value } = &stmts[0].kind else {
        panic!("expected assignment");
    };
    assert_eq!(name, "x");
    let ExprKind::Binary { left, op, right } = &value.kind else {
        panic!("expected binary");
    };
    assert_eq!(*op, BinaryOp::Sub);
    assert!(matches!(right.kind, ExprKind::Int(2)));
    assert!(matches!(left.kind, ExprKind::Binary { op: BinaryOp::Sub, .. }));
}

#[test]
fn logical_operators_bind_looser_than_comparison() {
    let program = parse("fn main() { print(!a || b && c < -1); }");
    let StmtKind::Block(stmts) = &program.functions[0].body.kind else {
        panic!("expected block");
    };
    let StmtKind::ExprStmt(call) = &stmts[0].kind else {
        panic!("expected expression statement");
    };
    let ExprKind::Call { name, args } = &call.kind else {
        panic!("expected call");
    };
    assert_eq!(name, "print");
    let ExprKind::Binary { left, op: BinaryOp::Or, right } = &args[0].kind else {
        panic!("expected `||`");
    };
    assert!(matches!(left.kind, ExprKind::Unary { op: UnaryOp::Not, .. }));
    let ExprKind::Binary { op: BinaryOp::And, right: cmp, .. } = &right.kind else {
        panic!("expected `&&`");
    };
    let ExprKind::Binary { op: BinaryOp::Lt, right: neg, .. } = &cmp.kind else {
        panic!("expected `<`");
    };
    assert!(matches!(neg.kind, ExprKind::Unary { op: UnaryOp::Neg, .. }));
}

#[test]
fn else_if_chains_nest() {
    let program = parse("fn main() { if a { } else if b { } else { } while c { let mut d = (1); } }");
    let StmtKind::Block(stmts) = &program.functions[0].body.kind else {
        panic!("expected block");
    };
    let StmtKind::If { else_branch: Some(else_branch), .. } = &stmts[0].kind else {
        panic!("expected if with else");
    };
    assert!(matches!(else_branch.kind, StmtKind::If { else_branch: Some(_), .. }));
    let StmtKind::While { body, .. } = &stmts[1].kind else {
        panic!("expected while");
    };
    let StmtKind::Block(inner) = &body.kind else {
        panic!("expected block");
    };
    assert!(matches!(inner[0].kind, StmtKind::Let { mutable: true, .. }));
}

#[test]
fn reports_missing_fn() {
    let err = parse_err("main() {}");
    assert_eq!(err.message, "expected `fn`");
    assert_eq!((err.line, err.column), (1, 1));
    assert_eq!(err.render(), "[parser] expected `fn` at line 1, column 1");
}

#[test]
fn reports_missing_semicolon() {
    let err = parse_err("fn main() { return 1 }");
    assert_eq!(err.message, "expected `;` after return");
    assert_eq!((err.line, err.column), (1, 22));
}

#[test]
fn reports_unterminated_block() {
    let err = parse_err("fn main() { let x = 1;");
    assert_eq!(err.message, "unterminated block");
    assert_eq!((err.line, err.column), (1, 23));
}

#[test]
fn reports_bad_type_name() {
    let err = parse_err("fn main() -> int { }");
    assert_eq!(err.message, "expected type name (`i64`, `bool`, `string`, or `()`)");
    let err = parse_err("fn main() -> ( { }");
    assert_eq!(err.message, "expected `()` as unit type");
    assert_eq!((err.line, err.column), (1, 14));
}

#[test]
fn only_names_can_be_called() {
    let err = parse_err("fn main() { 1(2); }");
    assert_eq!(err.message, "only function names can be called");
    assert_eq!((err.line, err.column), (1, 13));
}

#[test]
fn reports_missing_expression() {
    let err = parse_err("fn main() { return ; }");
    assert_eq!(err.message, "expected expression");
    assert_eq!((err.line, err.column), (1, 20));
}
