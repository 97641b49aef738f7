//! The grammar of dokusy, as a recursive-descent parse of a token sequence.
//!
//! Every parsing function takes the tokens and a position and gives either
//! the syntax tree found there with the position after it, or the error that
//! the parser reports.  Positions past the tokens read as `Eof`, and moving
//! forward never moves past an `Eof` token.
//!
//! Where a loop goes on from the position that an inner parse returned, the
//! definition checks that this position moved forward (`advanced`); the
//! parser's own contracts show that it always does, so the `stalled` branch
//! is never what the parser returns.
use vstd::prelude::*;

use crate::ast::{
    BinaryOp, Span, SpecExpr, SpecExprKind, SpecFunction, SpecParam, SpecProgram, SpecStmt,
    SpecStmtKind, TypeName, UnaryOp,
};
use crate::lexer::{SpecToken, SpecTokenKind};
use crate::text::SpecError;

verus! {

/// A parse result: the value and the position after it, or the error.
pub type Parsed<T> = Result<(T, int), SpecError>;

pub open spec fn kind_at(toks: Seq<SpecToken>, pos: int) -> SpecTokenKind {
    if 0 <= pos < toks.len() {
        toks[pos].kind
    } else {
        SpecTokenKind::Eof
    }
}

/// The position after the token at `pos`; `Eof` is never passed.
pub open spec fn adv_pos(toks: Seq<SpecToken>, pos: int) -> int {
    if kind_at(toks, pos) is Eof {
        pos
    } else {
        pos + 1
    }
}

pub open spec fn span_at(toks: Seq<SpecToken>, pos: int) -> Span {
    Span { line: toks[pos].line, column: toks[pos].column }
}

pub open spec fn token_error(message: Seq<char>, toks: Seq<SpecToken>, pos: int) -> SpecError {
    SpecError { message, line: toks[pos].line, column: toks[pos].column }
}

/// A loop goes on only from a position that moved forward and stays within
/// the tokens.
pub open spec fn advanced(toks: Seq<SpecToken>, before: int, after: int) -> bool {
    before <= after <= toks.len()
}

/// What a loop would give that did not move forward.
pub open spec fn stalled<T>(toks: Seq<SpecToken>, pos: int) -> Parsed<T> {
    Err(token_error("no progress"@, toks, pos))
}

/// The token at `pos` must be of kind `k`.
pub open spec fn expect_kind(toks: Seq<SpecToken>, pos: int, k: SpecTokenKind, message: Seq<char>) -> Result<
    int,
    SpecError,
> {
    if kind_at(toks, pos) == k {
        Ok(adv_pos(toks, pos))
    } else {
        Err(token_error(message, toks, pos))
    }
}

/// The token at `pos` must be an identifier; it is consumed either way.
pub open spec fn expect_identifier(toks: Seq<SpecToken>, pos: int, message: Seq<char>) -> Parsed<
    (Seq<char>, Span),
> {
    match kind_at(toks, pos) {
        SpecTokenKind::Identifier(name) => Ok(((name, span_at(toks, pos)), adv_pos(toks, pos))),
        _ => Err(token_error(message, toks, pos)),
    }
}

pub open spec fn parse_type_name(toks: Seq<SpecToken>, pos: int) -> Parsed<TypeName> {
    match kind_at(toks, pos) {
        SpecTokenKind::TypeI64 => Ok((TypeName::I64, pos + 1)),
        SpecTokenKind::TypeBool => Ok((TypeName::Bool, pos + 1)),
        SpecTokenKind::TypeString => Ok((TypeName::String, pos + 1)),
        SpecTokenKind::LParen => {
            if kind_at(toks, pos + 1) == SpecTokenKind::RParen {
                Ok((TypeName::Unit, pos + 2))
            } else {
                Err(token_error("expected `()` as unit type"@, toks, pos))
            }
        },
        _ => Err(
            token_error("expected type name (`i64`, `bool`, `string`, or `()`)"@, toks, pos),
        ),
    }
}

pub open spec fn binary(left: SpecExpr, op: BinaryOp, right: SpecExpr) -> SpecExpr {
    SpecExpr {
        kind: SpecExprKind::Binary { left: Box::new(left), op, right: Box::new(right) },
        span: left.span,
    }
}

pub open spec fn equality_op(k: SpecTokenKind) -> Option<BinaryOp> {
    match k {
        SpecTokenKind::EqEq => Some(BinaryOp::Eq),
        SpecTokenKind::NotEq => Some(BinaryOp::Ne),
        _ => None,
    }
}

pub open spec fn comparison_op(k: SpecTokenKind) -> Option<BinaryOp> {
    match k {
        SpecTokenKind::Less => Some(BinaryOp::Lt),
        SpecTokenKind::LessEq => Some(BinaryOp::Le),
        SpecTokenKind::Greater => Some(BinaryOp::Gt),
        SpecTokenKind::GreaterEq => Some(BinaryOp::Ge),
        _ => None,
    }
}

pub open spec fn term_op(k: SpecTokenKind) -> Option<BinaryOp> {
    match k {
        SpecTokenKind::Plus => Some(BinaryOp::Add),
        SpecTokenKind::Minus => Some(BinaryOp::Sub),
        _ => None,
    }
}

pub open spec fn factor_op(k: SpecTokenKind) -> Option<BinaryOp> {
    match k {
        SpecTokenKind::Star => Some(BinaryOp::Mul),
        SpecTokenKind::Slash => Some(BinaryOp::Div),
        _ => None,
    }
}

// ----------------------------------------------------------------------
// Statements
// ----------------------------------------------------------------------

pub open spec fn parse_stmt(toks: Seq<SpecToken>, pos: int) -> Parsed<SpecStmt>
    decreases toks.len() - pos, 29int,
{
    match kind_at(toks, pos) {
        SpecTokenKind::Let => parse_let(toks, pos),
        SpecTokenKind::If => parse_if(toks, pos),
        SpecTokenKind::While => parse_while(toks, pos),
        SpecTokenKind::Return => parse_return(toks, pos),
        SpecTokenKind::LBrace => parse_block(toks, pos),
        SpecTokenKind::Identifier(_) => {
            if kind_at(toks, pos + 1) == SpecTokenKind::Assign {
                parse_assign(toks, pos)
            } else {
                parse_expr_stmt(toks, pos)
            }
        },
        _ => parse_expr_stmt(toks, pos),
    }
}

/// `{ stmt* }`
pub open spec fn parse_block(toks: Seq<SpecToken>, pos: int) -> Parsed<SpecStmt>
    decreases toks.len() - pos, 28int,
{
    match expect_kind(toks, pos, SpecTokenKind::LBrace, "expected `{`"@) {
        Err(e) => Err(e),
        Ok(p1) => block_items(toks, p1, Seq::empty(), span_at(toks, pos)),
    }
}

/// The statements of a block from `pos` on, `acc` holding those before.
pub open spec fn block_items(toks: Seq<SpecToken>, pos: int, acc: Seq<SpecStmt>, start: Span) -> Parsed<
    SpecStmt,
>
    decreases toks.len() - pos, 30int,
{
    if kind_at(toks, pos) == SpecTokenKind::RBrace {
        Ok((SpecStmt { kind: SpecStmtKind::Block(acc), span: start }, pos + 1))
    } else if kind_at(toks, pos) is Eof {
        Err(token_error("unterminated block"@, toks, pos))
    } else {
        match parse_stmt(toks, pos) {
            Err(e) => Err(e),
            Ok((s, p2)) => {
                if advanced(toks, pos + 1, p2) {
                    block_items(toks, p2, acc.push(s), start)
                } else {
                    stalled(toks, pos)
                }
            },
        }
    }
}

/// `let [mut] name = expr;`
pub open spec fn parse_let(toks: Seq<SpecToken>, pos: int) -> Parsed<SpecStmt>
    decreases toks.len() - pos, 28int,
{
    let start = span_at(toks, pos);
    let p1 = adv_pos(toks, pos);
    let mutable = kind_at(toks, p1) == SpecTokenKind::Mut;
    let p2 = if mutable {
        p1 + 1
    } else {
        p1
    };
    match expect_identifier(toks, p2, "expected variable name after `let`"@) {
        Err(e) => Err(e),
        Ok(((name, _), p3)) => match expect_kind(
            toks,
            p3,
            SpecTokenKind::Assign,
            "expected `=` in let declaration"@,
        ) {
            Err(e) => Err(e),
            Ok(p4) => {
                match parse_expression(toks, p4) {
                    Err(e) => Err(e),
                    Ok((value, p5)) => {
                        if advanced(toks, p4, p5) {
                            match expect_kind(
                                toks,
                                p5,
                                SpecTokenKind::Semicolon,
                                "expected `;` after let declaration"@,
                            ) {
                                Err(e) => Err(e),
                                Ok(p6) => Ok(
                                    (
                                        SpecStmt {
                                            kind: SpecStmtKind::Let { name, mutable, value },
                                            span: start,
                                        },
                                        p6,
                                    ),
                                ),
                            }
                        } else {
                            stalled(toks, p4)
                        }
                    },
                }
            },
        },
    }
}

/// `name = expr;`
pub open spec fn parse_assign(toks: Seq<SpecToken>, pos: int) -> Parsed<SpecStmt>
    decreases toks.len() - pos, 28int,
{
    match expect_identifier(toks, pos, "expected assignment target"@) {
        Err(e) => Err(e),
        Ok(((name, span), p1)) => match expect_kind(
            toks,
            p1,
            SpecTokenKind::Assign,
            "expected `=` in assignment"@,
        ) {
            Err(e) => Err(e),
            Ok(p2) => {
                match parse_expression(toks, p2) {
                    Err(e) => Err(e),
                    Ok((value, p3)) => {
                        if advanced(toks, p2, p3) {
                            match expect_kind(
                                toks,
                                p3,
                                SpecTokenKind::Semicolon,
                                "expected `;` after assignment"@,
                            ) {
                                Err(e) => Err(e),
                                Ok(p4) => Ok(
                                    (
                                        SpecStmt {
                                            kind: SpecStmtKind::Assign { name, value },
                                            span,
                                        },
                                        p4,
                                    ),
                                ),
                            }
                        } else {
                            stalled(toks, p2)
                        }
                    },
                }
            },
        },
    }
}

/// `if cond { .. } [else if .. | else { .. }]`
pub open spec fn parse_if(toks: Seq<SpecToken>, pos: int) -> Parsed<SpecStmt>
    decreases toks.len() - pos, 28int,
{
    let start = span_at(toks, pos);
    let p1 = adv_pos(toks, pos);
    match parse_expression(toks, p1) {
        Err(e) => Err(e),
        Ok((cond, p2)) => {
            if advanced(toks, p1, p2) {
                match parse_block(toks, p2) {
                    Err(e) => Err(e),
                    Ok((then_branch, p3)) => {
                        if advanced(toks, p2, p3) {
                            if kind_at(toks, p3) == SpecTokenKind::Else {
                                let p4 = p3 + 1;
                                let branch = if kind_at(toks, p4) == SpecTokenKind::If {
                                    parse_if(toks, p4)
                                } else {
                                    parse_block(toks, p4)
                                };
                                match branch {
                                    Err(e) => Err(e),
                                    Ok((b, p5)) => Ok(
                                        (
                                            SpecStmt {
                                                kind: SpecStmtKind::If {
                                                    cond,
                                                    then_branch: Box::new(then_branch),
                                                    else_branch: Some(Box::new(b)),
                                                },
                                                span: start,
                                            },
                                            p5,
                                        ),
                                    ),
                                }
                            } else {
                                Ok(
                                    (
                                        SpecStmt {
                                            kind: SpecStmtKind::If {
                                                cond,
                                                then_branch: Box::new(then_branch),
                                                else_branch: None,
                                            },
                                            span: start,
                                        },
                                        p3,
                                    ),
                                )
                            }
                        } else {
                            stalled(toks, p2)
                        }
                    },
                }
            } else {
                stalled(toks, p1)
            }
        },
    }
}

/// `while cond { .. }`
pub open spec fn parse_while(toks: Seq<SpecToken>, pos: int) -> Parsed<SpecStmt>
    decreases toks.len() - pos, 28int,
{
    let start = span_at(toks, pos);
    let p1 = adv_pos(toks, pos);
    match parse_expression(toks, p1) {
        Err(e) => Err(e),
        Ok((cond, p2)) => {
            if advanced(toks, p1, p2) {
                match parse_block(toks, p2) {
                    Err(e) => Err(e),
                    Ok((body, p3)) => Ok(
                        (
                            SpecStmt {
                                kind: SpecStmtKind::While { cond, body: Box::new(body) },
                                span: start,
                            },
                            p3,
                        ),
                    ),
                }
            } else {
                stalled(toks, p1)
            }
        },
    }
}

/// `return expr;`
pub open spec fn parse_return(toks: Seq<SpecToken>, pos: int) -> Parsed<SpecStmt>
    decreases toks.len() - pos, 28int,
{
    let start = span_at(toks, pos);
    let p1 = adv_pos(toks, pos);
    match parse_expression(toks, p1) {
        Err(e) => Err(e),
        Ok((value, p2)) => {
            if advanced(toks, p1, p2) {
                match expect_kind(
                    toks,
                    p2,
                    SpecTokenKind::Semicolon,
                    "expected `;` after return"@,
                ) {
                    Err(e) => Err(e),
                    Ok(p3) => Ok(
                        (SpecStmt { kind: SpecStmtKind::Return(value), span: start }, p3),
                    ),
                }
            } else {
                stalled(toks, p1)
            }
        },
    }
}

/// `expr;`
pub open spec fn parse_expr_stmt(toks: Seq<SpecToken>, pos: int) -> Parsed<SpecStmt>
    decreases toks.len() - pos, 28int,
{
    match parse_expression(toks, pos) {
        Err(e) => Err(e),
        Ok((value, p1)) => {
            if advanced(toks, pos, p1) {
                match expect_kind(
                    toks,
                    p1,
                    SpecTokenKind::Semicolon,
                    "expected `;` after expression"@,
                ) {
                    Err(e) => Err(e),
                    Ok(p2) => Ok(
                        (SpecStmt { kind: SpecStmtKind::ExprStmt(value), span: value.span }, p2),
                    ),
                }
            } else {
                stalled(toks, pos)
            }
        },
    }
}

// ----------------------------------------------------------------------
// Expressions, loosest binding first
// ----------------------------------------------------------------------

pub open spec fn parse_expression(toks: Seq<SpecToken>, pos: int) -> Parsed<SpecExpr>
    decreases toks.len() - pos, 20int,
{
    parse_or(toks, pos)
}

pub open spec fn parse_or(toks: Seq<SpecToken>, pos: int) -> Parsed<SpecExpr>
    decreases toks.len() - pos, 19int,
{
    match parse_and(toks, pos) {
        Err(e) => Err(e),
        Ok((left, p1)) => {
            if advanced(toks, pos, p1) {
                or_rest(toks, p1, left)
            } else {
                stalled(toks, pos)
            }
        },
    }
}

pub open spec fn or_rest(toks: Seq<SpecToken>, pos: int, left: SpecExpr) -> Parsed<SpecExpr>
    decreases toks.len() - pos, 18int,
{
    if kind_at(toks, pos) == SpecTokenKind::OrOr {
        match parse_and(toks, pos + 1) {
            Err(e) => Err(e),
            Ok((right, p2)) => {
                if advanced(toks, pos + 1, p2) {
                    or_rest(toks, p2, binary(left, BinaryOp::Or, right))
                } else {
                    stalled(toks, pos)
                }
            },
        }
    } else {
        Ok((left, pos))
    }
}

pub open spec fn parse_and(toks: Seq<SpecToken>, pos: int) -> Parsed<SpecExpr>
    decreases toks.len() - pos, 17int,
{
    match parse_equality(toks, pos) {
        Err(e) => Err(e),
        Ok((left, p1)) => {
            if advanced(toks, pos, p1) {
                and_rest(toks, p1, left)
            } else {
                stalled(toks, pos)
            }
        },
    }
}

pub open spec fn and_rest(toks: Seq<SpecToken>, pos: int, left: SpecExpr) -> Parsed<SpecExpr>
    decreases toks.len() - pos, 16int,
{
    if kind_at(toks, pos) == SpecTokenKind::AndAnd {
        match parse_equality(toks, pos + 1) {
            Err(e) => Err(e),
            Ok((right, p2)) => {
                if advanced(toks, pos + 1, p2) {
                    and_rest(toks, p2, binary(left, BinaryOp::And, right))
                } else {
                    stalled(toks, pos)
                }
            },
        }
    } else {
        Ok((left, pos))
    }
}

pub open spec fn parse_equality(toks: Seq<SpecToken>, pos: int) -> Parsed<SpecExpr>
    decreases toks.len() - pos, 15int,
{
    match parse_comparison(toks, pos) {
        Err(e) => Err(e),
        Ok((left, p1)) => {
            if advanced(toks, pos, p1) {
                equality_rest(toks, p1, left)
            } else {
                stalled(toks, pos)
            }
        },
    }
}

pub open spec fn equality_rest(toks: Seq<SpecToken>, pos: int, left: SpecExpr) -> Parsed<SpecExpr>
    decreases toks.len() - pos, 14int,
{
    match equality_op(kind_at(toks, pos)) {
        None => Ok((left, pos)),
        Some(op) => match parse_comparison(toks, pos + 1) {
            Err(e) => Err(e),
            Ok((right, p2)) => {
                if advanced(toks, pos + 1, p2) {
                    equality_rest(toks, p2, binary(left, op, right))
                } else {
                    stalled(toks, pos)
                }
            },
        },
    }
}

pub open spec fn parse_comparison(toks: Seq<SpecToken>, pos: int) -> Parsed<SpecExpr>
    decreases toks.len() - pos, 13int,
{
    match parse_term(toks, pos) {
        Err(e) => Err(e),
        Ok((left, p1)) => {
            if advanced(toks, pos, p1) {
                comparison_rest(toks, p1, left)
            } else {
                stalled(toks, pos)
            }
        },
    }
}

pub open spec fn comparison_rest(toks: Seq<SpecToken>, pos: int, left: SpecExpr) -> Parsed<SpecExpr>
    decreases toks.len() - pos, 12int,
{
    match comparison_op(kind_at(toks, pos)) {
        None => Ok((left, pos)),
        Some(op) => match parse_term(toks, pos + 1) {
            Err(e) => Err(e),
            Ok((right, p2)) => {
                if advanced(toks, pos + 1, p2) {
                    comparison_rest(toks, p2, binary(left, op, right))
                } else {
                    stalled(toks, pos)
                }
            },
        },
    }
}

pub open spec fn parse_term(toks: Seq<SpecToken>, pos: int) -> Parsed<SpecExpr>
    decreases toks.len() - pos, 11int,
{
    match parse_factor(toks, pos) {
        Err(e) => Err(e),
        Ok((left, p1)) => {
            if advanced(toks, pos, p1) {
                term_rest(toks, p1, left)
            } else {
                stalled(toks, pos)
            }
        },
    }
}

pub open spec fn term_rest(toks: Seq<SpecToken>, pos: int, left: SpecExpr) -> Parsed<SpecExpr>
    decreases toks.len() - pos, 10int,
{
    match term_op(kind_at(toks, pos)) {
        None => Ok((left, pos)),
        Some(op) => match parse_factor(toks, pos + 1) {
            Err(e) => Err(e),
            Ok((right, p2)) => {
                if advanced(toks, pos + 1, p2) {
                    term_rest(toks, p2, binary(left, op, right))
                } else {
                    stalled(toks, pos)
                }
            },
        },
    }
}

pub open spec fn parse_factor(toks: Seq<SpecToken>, pos: int) -> Parsed<SpecExpr>
    decreases toks.len() - pos, 9int,
{
    match parse_unary(toks, pos) {
        Err(e) => Err(e),
        Ok((left, p1)) => {
            if advanced(toks, pos, p1) {
                factor_rest(toks, p1, left)
            } else {
                stalled(toks, pos)
            }
        },
    }
}

pub open spec fn factor_rest(toks: Seq<SpecToken>, pos: int, left: SpecExpr) -> Parsed<SpecExpr>
    decreases toks.len() - pos, 8int,
{
    match factor_op(kind_at(toks, pos)) {
        None => Ok((left, pos)),
        Some(op) => match parse_unary(toks, pos + 1) {
            Err(e) => Err(e),
            Ok((right, p2)) => {
                if advanced(toks, pos + 1, p2) {
                    factor_rest(toks, p2, binary(left, op, right))
                } else {
                    stalled(toks, pos)
                }
            },
        },
    }
}

pub open spec fn unary(op: UnaryOp, operand: SpecExpr, span: Span) -> SpecExpr {
    SpecExpr { kind: SpecExprKind::Unary { op, expr: Box::new(operand) }, span }
}

pub open spec fn parse_unary(toks: Seq<SpecToken>, pos: int) -> Parsed<SpecExpr>
    decreases toks.len() - pos, 7int,
{
    match kind_at(toks, pos) {
        SpecTokenKind::Bang => match parse_unary(toks, pos + 1) {
            Err(e) => Err(e),
            Ok((operand, p1)) => Ok((unary(UnaryOp::Not, operand, span_at(toks, pos)), p1)),
        },
        SpecTokenKind::Minus => match parse_unary(toks, pos + 1) {
            Err(e) => Err(e),
            Ok((operand, p1)) => Ok((unary(UnaryOp::Neg, operand, span_at(toks, pos)), p1)),
        },
        _ => parse_call(toks, pos),
    }
}

pub open spec fn parse_call(toks: Seq<SpecToken>, pos: int) -> Parsed<SpecExpr>
    decreases toks.len() - pos, 6int,
{
    match parse_primary(toks, pos) {
        Err(e) => Err(e),
        Ok((callee, p1)) => {
            if advanced(toks, pos, p1) {
                call_rest(toks, p1, callee)
            } else {
                stalled(toks, pos)
            }
        },
    }
}

/// Zero or more argument lists after `callee`.
pub open spec fn call_rest(toks: Seq<SpecToken>, pos: int, callee: SpecExpr) -> Parsed<SpecExpr>
    decreases toks.len() - pos, 5int,
{
    if kind_at(toks, pos) == SpecTokenKind::LParen {
        let p1 = pos + 1;
        match arg_list(toks, p1) {
            Err(e) => Err(e),
            Ok((args, p2)) => {
                if advanced(toks, p1, p2) {
                    match expect_kind(
                        toks,
                        p2,
                        SpecTokenKind::RParen,
                        "expected `)` after arguments"@,
                    ) {
                        Err(e) => Err(e),
                        Ok(p3) => match callee.kind {
                            SpecExprKind::Var(name) => call_rest(
                                toks,
                                p3,
                                SpecExpr {
                                    kind: SpecExprKind::Call { name, args },
                                    span: callee.span,
                                },
                            ),
                            _ => Err(
                                SpecError {
                                    message: "only function names can be called"@,
                                    line: callee.span.line,
                                    column: callee.span.column,
                                },
                            ),
                        },
                    }
                } else {
                    stalled(toks, pos)
                }
            },
        }
    } else {
        Ok((callee, pos))
    }
}

/// The arguments of a call, possibly none, up to the closing parenthesis.
pub open spec fn arg_list(toks: Seq<SpecToken>, pos: int) -> Parsed<Seq<SpecExpr>>
    decreases toks.len() - pos, 26int,
{
    if kind_at(toks, pos) == SpecTokenKind::RParen {
        Ok((Seq::<SpecExpr>::empty(), pos))
    } else {
        arg_items(toks, pos, Seq::empty())
    }
}

/// `expr (, expr)*`, `acc` holding the arguments before `pos`.
pub open spec fn arg_items(toks: Seq<SpecToken>, pos: int, acc: Seq<SpecExpr>) -> Parsed<
    Seq<SpecExpr>,
>
    decreases toks.len() - pos, 25int,
{
    match parse_expression(toks, pos) {
        Err(e) => Err(e),
        Ok((arg, p1)) => {
            if advanced(toks, pos, p1) {
                if kind_at(toks, p1) == SpecTokenKind::Comma {
                    arg_items(toks, p1 + 1, acc.push(arg))
                } else {
                    Ok((acc.push(arg), p1))
                }
            } else {
                stalled(toks, pos)
            }
        },
    }
}

/// The expression that a literal or identifier token stands for.
pub open spec fn literal_kind(k: SpecTokenKind) -> Option<SpecExprKind> {
    match k {
        SpecTokenKind::IntLiteral(v) => Some(SpecExprKind::Int(v)),
        SpecTokenKind::StringLiteral(s) => Some(SpecExprKind::Str(s)),
        SpecTokenKind::True => Some(SpecExprKind::Bool(true)),
        SpecTokenKind::False => Some(SpecExprKind::Bool(false)),
        SpecTokenKind::Identifier(name) => Some(SpecExprKind::Var(name)),
        _ => None,
    }
}

pub open spec fn parse_primary(toks: Seq<SpecToken>, pos: int) -> Parsed<SpecExpr>
    decreases toks.len() - pos, 3int,
{
    match literal_kind(kind_at(toks, pos)) {
        Some(kind) => Ok((SpecExpr { kind, span: span_at(toks, pos) }, pos + 1)),
        None => {
            if kind_at(toks, pos) == SpecTokenKind::LParen {
                match parse_expression(toks, pos + 1) {
                    Err(e) => Err(e),
                    Ok((inner, p1)) => match expect_kind(
                        toks,
                        p1,
                        SpecTokenKind::RParen,
                        "expected `)` after expression"@,
                    ) {
                        Err(e) => Err(e),
                        Ok(p2) => Ok((inner, p2)),
                    },
                }
            } else {
                Err(token_error("expected expression"@, toks, pos))
            }
        },
    }
}

// ----------------------------------------------------------------------
// Functions and programs
// ----------------------------------------------------------------------

/// `name: type (, name: type)*`, `acc` holding the parameters before `pos`.
pub open spec fn param_items(toks: Seq<SpecToken>, pos: int, acc: Seq<SpecParam>) -> Parsed<
    Seq<SpecParam>,
>
    decreases toks.len() - pos,
{
    match expect_identifier(toks, pos, "expected parameter name"@) {
        Err(e) => Err(e),
        Ok(((name, span), p1)) => match expect_kind(
            toks,
            p1,
            SpecTokenKind::Colon,
            "expected `:` after parameter name"@,
        ) {
            Err(e) => Err(e),
            Ok(p2) => match parse_type_name(toks, p2) {
                Err(e) => Err(e),
                Ok((ty, p3)) => {
                    let params = acc.push(SpecParam { name, ty, span });
                    if kind_at(toks, p3) == SpecTokenKind::Comma {
                        param_items(toks, p3 + 1, params)
                    } else {
                        Ok((params, p3))
                    }
                },
            },
        },
    }
}

/// `fn name(params) [-> type] { .. }`
pub open spec fn parse_function(toks: Seq<SpecToken>, pos: int) -> Parsed<SpecFunction> {
    match expect_kind(toks, pos, SpecTokenKind::Fn, "expected `fn`"@) {
        Err(e) => Err(e),
        Ok(p1) => match expect_identifier(toks, p1, "expected function name"@) {
            Err(e) => Err(e),
            Ok(((name, _), p2)) => match expect_kind(
                toks,
                p2,
                SpecTokenKind::LParen,
                "expected `(` after function name"@,
            ) {
                Err(e) => Err(e),
                Ok(p3) => {
                    let params = if kind_at(toks, p3) == SpecTokenKind::RParen {
                        Ok((Seq::<SpecParam>::empty(), p3))
                    } else {
                        param_items(toks, p3, Seq::empty())
                    };
                    match params {
                        Err(e) => Err(e),
                        Ok((params, p4)) => match expect_kind(
                            toks,
                            p4,
                            SpecTokenKind::RParen,
                            "expected `)` after parameters"@,
                        ) {
                            Err(e) => Err(e),
                            Ok(p5) => {
                                let ret = if kind_at(toks, p5) == SpecTokenKind::Arrow {
                                    parse_type_name(toks, p5 + 1)
                                } else {
                                    Ok((TypeName::Unit, p5))
                                };
                                match ret {
                                    Err(e) => Err(e),
                                    Ok((return_type, p6)) => match parse_block(toks, p6) {
                                        Err(e) => Err(e),
                                        Ok((body, p7)) => Ok(
                                            (
                                                SpecFunction {
                                                    name,
                                                    params,
                                                    return_type,
                                                    body,
                                                    span: span_at(toks, pos),
                                                },
                                                p7,
                                            ),
                                        ),
                                    },
                                }
                            },
                        },
                    }
                },
            },
        },
    }
}

/// The functions from `pos` up to `Eof`, `acc` holding those before `pos`.
pub open spec fn program_items(toks: Seq<SpecToken>, pos: int, acc: Seq<SpecFunction>) -> Result<
    SpecProgram,
    SpecError,
>
    decreases toks.len() - pos,
{
    if kind_at(toks, pos) is Eof {
        Ok(SpecProgram { functions: acc })
    } else {
        match parse_function(toks, pos) {
            Err(e) => Err(e),
            Ok((f, p1)) => {
                if advanced(toks, pos + 1, p1) {
                    program_items(toks, p1, acc.push(f))
                } else {
                    Err(token_error("no progress"@, toks, pos))
                }
            },
        }
    }
}

/// What `Parser::new(tokens).parse_program()` gives for tokens with these
/// views.
pub open spec fn parse_program_spec(toks: Seq<SpecToken>) -> Result<SpecProgram, SpecError> {
    program_items(toks, 0, Seq::empty())
}


// ----------------------------------------------------------------------
// Precedence
// ----------------------------------------------------------------------

/// An integer literal or a name: the simplest operand.
pub open spec fn is_atom(k: SpecTokenKind) -> bool {
    k is IntLiteral || k is Identifier
}

/// The expression of the atom token at `i`.
pub open spec fn atom_expr(toks: Seq<SpecToken>, i: int) -> SpecExpr {
    SpecExpr {
        kind: match kind_at(toks, i) {
            SpecTokenKind::IntLiteral(v) => SpecExprKind::Int(v),
            SpecTokenKind::Identifier(n) => SpecExprKind::Var(n),
            _ => SpecExprKind::Int(0),
        },
        span: span_at(toks, i),
    }
}

/// A token after which an expression ends.
pub open spec fn ends_expression(k: SpecTokenKind) -> bool {
    k is Semicolon || k is LBrace || k is RParen || k is RBrace || k is Comma || k is Eof
}

/// The binary expression `left op right`, at the left operand's position.
pub open spec fn binary_node(left: SpecExpr, op: BinaryOp, right: SpecExpr) -> SpecExpr {
    SpecExpr {
        kind: SpecExprKind::Binary { left: Box::new(left), op, right: Box::new(right) },
        span: left.span,
    }
}

proof fn lemma_atom_factor(toks: Seq<SpecToken>, i: int)
    requires
        0 <= i < toks.len(),
        is_atom(toks[i].kind),
        !(kind_at(toks, i + 1) is LParen),
        !(kind_at(toks, i + 1) is Star),
        !(kind_at(toks, i + 1) is Slash),
    ensures
        parse_factor(toks, i) == Ok::<(SpecExpr, int), SpecError>((atom_expr(toks, i), i + 1)),
{
    let a = atom_expr(toks, i);
    assert(parse_primary(toks, i) == Ok::<(SpecExpr, int), SpecError>((a, i + 1)));
    assert(call_rest(toks, i + 1, a) == Ok::<(SpecExpr, int), SpecError>((a, i + 1)));
    assert(parse_call(toks, i) == Ok::<(SpecExpr, int), SpecError>((a, i + 1)));
    assert(parse_unary(toks, i) == Ok::<(SpecExpr, int), SpecError>((a, i + 1)));
    assert(factor_rest(toks, i + 1, a) == Ok::<(SpecExpr, int), SpecError>((a, i + 1)));
}

proof fn lemma_atom_term(toks: Seq<SpecToken>, i: int)
    requires
        0 <= i < toks.len(),
        is_atom(toks[i].kind),
        ends_expression(kind_at(toks, i + 1)) || kind_at(toks, i + 1) is Less,
    ensures
        parse_term(toks, i) == Ok::<(SpecExpr, int), SpecError>((atom_expr(toks, i), i + 1)),
{
    lemma_atom_factor(toks, i);
    let a = atom_expr(toks, i);
    assert(term_rest(toks, i + 1, a) == Ok::<(SpecExpr, int), SpecError>((a, i + 1)));
}

/// The comparison operators bind looser than `+`: the tokens `x + y < z`,
/// with `x`, `y`, `z` literals or names and the expression ending after
/// `z`, parse as `(x + y) < z`.
pub proof fn lemma_comparison_binds_looser_than_sum(toks: Seq<SpecToken>, pos: int)
    requires
        0 <= pos,
        pos + 4 < toks.len(),
        is_atom(toks[pos].kind),
        toks[pos + 1].kind is Plus,
        is_atom(toks[pos + 2].kind),
        toks[pos + 3].kind is Less,
        is_atom(toks[pos + 4].kind),
        ends_expression(kind_at(toks, pos + 5)),
    ensures
        parse_expression(toks, pos) == Ok::<(SpecExpr, int), SpecError>(
            (
                binary_node(
                    binary_node(atom_expr(toks, pos), BinaryOp::Add, atom_expr(toks, pos + 2)),
                    BinaryOp::Lt,
                    atom_expr(toks, pos + 4),
                ),
                pos + 5,
            ),
        ),
{
    let x = atom_expr(toks, pos);
    let y = atom_expr(toks, pos + 2);
    let z = atom_expr(toks, pos + 4);
    let sum = binary_node(x, BinaryOp::Add, y);
    let cmp = binary_node(sum, BinaryOp::Lt, z);
    lemma_atom_factor(toks, pos);
    lemma_atom_factor(toks, pos + 2);
    lemma_atom_term(toks, pos + 4);
    assert(term_rest(toks, pos + 3, sum) == Ok::<(SpecExpr, int), SpecError>((sum, pos + 3)));
    assert(term_rest(toks, pos + 1, x) == Ok::<(SpecExpr, int), SpecError>((sum, pos + 3)));
    assert(parse_term(toks, pos) == Ok::<(SpecExpr, int), SpecError>((sum, pos + 3)));
    assert(comparison_rest(toks, pos + 5, cmp) == Ok::<(SpecExpr, int), SpecError>((cmp, pos + 5)));
    assert(comparison_rest(toks, pos + 3, sum) == Ok::<(SpecExpr, int), SpecError>(
        (cmp, pos + 5),
    ));
    assert(parse_comparison(toks, pos) == Ok::<(SpecExpr, int), SpecError>((cmp, pos + 5)));
    assert(equality_rest(toks, pos + 5, cmp) == Ok::<(SpecExpr, int), SpecError>((cmp, pos + 5)));
    assert(parse_equality(toks, pos) == Ok::<(SpecExpr, int), SpecError>((cmp, pos + 5)));
    assert(and_rest(toks, pos + 5, cmp) == Ok::<(SpecExpr, int), SpecError>((cmp, pos + 5)));
    assert(parse_and(toks, pos) == Ok::<(SpecExpr, int), SpecError>((cmp, pos + 5)));
    assert(or_rest(toks, pos + 5, cmp) == Ok::<(SpecExpr, int), SpecError>((cmp, pos + 5)));
    assert(parse_or(toks, pos) == Ok::<(SpecExpr, int), SpecError>((cmp, pos + 5)));
}


/// A sum or product that ends the expression is the whole expression.
proof fn lemma_term_is_expression(toks: Seq<SpecToken>, pos: int, e: SpecExpr, q: int)
    requires
        0 <= pos < q <= toks.len(),
        parse_term(toks, pos) == Ok::<(SpecExpr, int), SpecError>((e, q)),
        ends_expression(kind_at(toks, q)),
    ensures
        parse_expression(toks, pos) == Ok::<(SpecExpr, int), SpecError>((e, q)),
{
    assert(comparison_rest(toks, q, e) == Ok::<(SpecExpr, int), SpecError>((e, q)));
    assert(parse_comparison(toks, pos) == Ok::<(SpecExpr, int), SpecError>((e, q)));
    assert(equality_rest(toks, q, e) == Ok::<(SpecExpr, int), SpecError>((e, q)));
    assert(parse_equality(toks, pos) == Ok::<(SpecExpr, int), SpecError>((e, q)));
    assert(and_rest(toks, q, e) == Ok::<(SpecExpr, int), SpecError>((e, q)));
    assert(parse_and(toks, pos) == Ok::<(SpecExpr, int), SpecError>((e, q)));
    assert(or_rest(toks, q, e) == Ok::<(SpecExpr, int), SpecError>((e, q)));
}

/// `*` binds tighter than `+`: the tokens `x + y * z`, with `x`, `y`, `z`
/// literals or names and the expression ending after `z`, parse as
/// `x + (y * z)`.
pub proof fn lemma_product_binds_tighter_than_sum(toks: Seq<SpecToken>, pos: int)
    requires
        0 <= pos,
        pos + 4 < toks.len(),
        is_atom(toks[pos].kind),
        toks[pos + 1].kind is Plus,
        is_atom(toks[pos + 2].kind),
        toks[pos + 3].kind is Star,
        is_atom(toks[pos + 4].kind),
        ends_expression(kind_at(toks, pos + 5)),
    ensures
        parse_expression(toks, pos) == Ok::<(SpecExpr, int), SpecError>(
            (
                binary_node(
                    atom_expr(toks, pos),
                    BinaryOp::Add,
                    binary_node(atom_expr(toks, pos + 2), BinaryOp::Mul, atom_expr(toks, pos + 4)),
                ),
                pos + 5,
            ),
        ),
{
    let x = atom_expr(toks, pos);
    let y = atom_expr(toks, pos + 2);
    let z = atom_expr(toks, pos + 4);
    let prod = binary_node(y, BinaryOp::Mul, z);
    let sum = binary_node(x, BinaryOp::Add, prod);
    lemma_atom_factor(toks, pos);
    let a = atom_expr(toks, pos + 4);
    assert(parse_primary(toks, pos + 4) == Ok::<(SpecExpr, int), SpecError>((a, pos + 5)));
    assert(call_rest(toks, pos + 5, a) == Ok::<(SpecExpr, int), SpecError>((a, pos + 5)));
    assert(parse_unary(toks, pos + 4) == Ok::<(SpecExpr, int), SpecError>((a, pos + 5)));
    let b = atom_expr(toks, pos + 2);
    assert(parse_primary(toks, pos + 2) == Ok::<(SpecExpr, int), SpecError>((b, pos + 3)));
    assert(call_rest(toks, pos + 3, b) == Ok::<(SpecExpr, int), SpecError>((b, pos + 3)));
    assert(parse_unary(toks, pos + 2) == Ok::<(SpecExpr, int), SpecError>((b, pos + 3)));
    assert(factor_rest(toks, pos + 5, prod) == Ok::<(SpecExpr, int), SpecError>((prod, pos + 5)));
    assert(factor_rest(toks, pos + 3, y) == Ok::<(SpecExpr, int), SpecError>((prod, pos + 5)));
    assert(parse_factor(toks, pos + 2) == Ok::<(SpecExpr, int), SpecError>((prod, pos + 5)));
    assert(term_rest(toks, pos + 5, sum) == Ok::<(SpecExpr, int), SpecError>((sum, pos + 5)));
    assert(term_rest(toks, pos + 1, x) == Ok::<(SpecExpr, int), SpecError>((sum, pos + 5)));
    assert(parse_term(toks, pos) == Ok::<(SpecExpr, int), SpecError>((sum, pos + 5)));
    lemma_term_is_expression(toks, pos, sum, pos + 5);
}

/// `-` groups to the left: the tokens `x - y - z`, with `x`, `y`, `z`
/// literals or names and the expression ending after `z`, parse as
/// `(x - y) - z`.
pub proof fn lemma_difference_groups_left(toks: Seq<SpecToken>, pos: int)
    requires
        0 <= pos,
        pos + 4 < toks.len(),
        is_atom(toks[pos].kind),
        toks[pos + 1].kind is Minus,
        is_atom(toks[pos + 2].kind),
        toks[pos + 3].kind is Minus,
        is_atom(toks[pos + 4].kind),
        ends_expression(kind_at(toks, pos + 5)),
    ensures
        parse_expression(toks, pos) == Ok::<(SpecExpr, int), SpecError>(
            (
                binary_node(
                    binary_node(atom_expr(toks, pos), BinaryOp::Sub, atom_expr(toks, pos + 2)),
                    BinaryOp::Sub,
                    atom_expr(toks, pos + 4),
                ),
                pos + 5,
            ),
        ),
{
    let x = atom_expr(toks, pos);
    let y = atom_expr(toks, pos + 2);
    let z = atom_expr(toks, pos + 4);
    let d1 = binary_node(x, BinaryOp::Sub, y);
    let d2 = binary_node(d1, BinaryOp::Sub, z);
    lemma_atom_factor(toks, pos);
    lemma_atom_factor(toks, pos + 2);
    lemma_atom_factor(toks, pos + 4);
    assert(term_rest(toks, pos + 5, d2) == Ok::<(SpecExpr, int), SpecError>((d2, pos + 5)));
    assert(term_rest(toks, pos + 3, d1) == Ok::<(SpecExpr, int), SpecError>((d2, pos + 5)));
    assert(term_rest(toks, pos + 1, x) == Ok::<(SpecExpr, int), SpecError>((d2, pos + 5)));
    assert(parse_term(toks, pos) == Ok::<(SpecExpr, int), SpecError>((d2, pos + 5)));
    lemma_term_is_expression(toks, pos, d2, pos + 5);
}


/// The operator that a binary operator token writes.
pub open spec fn written_operator(k: SpecTokenKind) -> Option<BinaryOp> {
    match k {
        SpecTokenKind::Plus => Some(BinaryOp::Add),
        SpecTokenKind::Minus => Some(BinaryOp::Sub),
        SpecTokenKind::Star => Some(BinaryOp::Mul),
        SpecTokenKind::Slash => Some(BinaryOp::Div),
        SpecTokenKind::EqEq => Some(BinaryOp::Eq),
        SpecTokenKind::NotEq => Some(BinaryOp::Ne),
        SpecTokenKind::Less => Some(BinaryOp::Lt),
        SpecTokenKind::LessEq => Some(BinaryOp::Le),
        SpecTokenKind::Greater => Some(BinaryOp::Gt),
        SpecTokenKind::GreaterEq => Some(BinaryOp::Ge),
        SpecTokenKind::AndAnd => Some(BinaryOp::And),
        SpecTokenKind::OrOr => Some(BinaryOp::Or),
        _ => None,
    }
}

/// An atom followed by the end of the expression is the whole expression,
/// at every level of the grammar.
proof fn lemma_atom_alone(toks: Seq<SpecToken>, i: int)
    requires
        0 <= i < toks.len(),
        is_atom(toks[i].kind),
        ends_expression(kind_at(toks, i + 1)),
    ensures
        parse_factor(toks, i) == Ok::<(SpecExpr, int), SpecError>((atom_expr(toks, i), i + 1)),
        parse_term(toks, i) == Ok::<(SpecExpr, int), SpecError>((atom_expr(toks, i), i + 1)),
        parse_comparison(toks, i) == Ok::<(SpecExpr, int), SpecError>((atom_expr(toks, i), i + 1)),
        parse_equality(toks, i) == Ok::<(SpecExpr, int), SpecError>((atom_expr(toks, i), i + 1)),
        parse_and(toks, i) == Ok::<(SpecExpr, int), SpecError>((atom_expr(toks, i), i + 1)),
        parse_expression(toks, i) == Ok::<(SpecExpr, int), SpecError>((atom_expr(toks, i), i + 1)),
{
    lemma_atom_term(toks, i);
    lemma_term_is_expression(toks, i, atom_expr(toks, i), i + 1);
}

proof fn lemma_binary_factor_level(toks: Seq<SpecToken>, pos: int)
    requires
        0 <= pos,
        pos + 2 < toks.len(),
        is_atom(toks[pos].kind),
        ({
            let k = toks[pos + 1].kind;
            k is Star || k is Slash
        }),
        is_atom(toks[pos + 2].kind),
        ends_expression(kind_at(toks, pos + 3)),
    ensures
        parse_expression(toks, pos) == Ok::<(SpecExpr, int), SpecError>(
            (
                binary_node(
                    atom_expr(toks, pos),
                    written_operator(toks[pos + 1].kind)->0,
                    atom_expr(toks, pos + 2),
                ),
                pos + 3,
            ),
        ),
{
    let x = atom_expr(toks, pos);
    let y = atom_expr(toks, pos + 2);
    let e = binary_node(x, written_operator(toks[pos + 1].kind)->0, y);
    let q = pos + 3;
    lemma_atom_alone(toks, pos + 2);
    assert(parse_primary(toks, pos) == Ok::<(SpecExpr, int), SpecError>((x, pos + 1)));
    assert(call_rest(toks, pos + 1, x) == Ok::<(SpecExpr, int), SpecError>((x, pos + 1)));
    assert(parse_unary(toks, pos) == Ok::<(SpecExpr, int), SpecError>((x, pos + 1)));
    assert(factor_rest(toks, q, e) == Ok::<(SpecExpr, int), SpecError>((e, q)));
    assert(factor_rest(toks, pos + 1, x) == Ok::<(SpecExpr, int), SpecError>((e, q)));
    assert(parse_factor(toks, pos) == Ok::<(SpecExpr, int), SpecError>((e, q)));
    assert(term_rest(toks, q, e) == Ok::<(SpecExpr, int), SpecError>((e, q)));
    assert(parse_term(toks, pos) == Ok::<(SpecExpr, int), SpecError>((e, q)));
    assert(comparison_rest(toks, q, e) == Ok::<(SpecExpr, int), SpecError>((e, q)));
    assert(parse_comparison(toks, pos) == Ok::<(SpecExpr, int), SpecError>((e, q)));
    assert(equality_rest(toks, q, e) == Ok::<(SpecExpr, int), SpecError>((e, q)));
    assert(parse_equality(toks, pos) == Ok::<(SpecExpr, int), SpecError>((e, q)));
    assert(and_rest(toks, q, e) == Ok::<(SpecExpr, int), SpecError>((e, q)));
    assert(parse_and(toks, pos) == Ok::<(SpecExpr, int), SpecError>((e, q)));
    assert(or_rest(toks, q, e) == Ok::<(SpecExpr, int), SpecError>((e, q)));
}

proof fn lemma_binary_term_level(toks: Seq<SpecToken>, pos: int)
    requires
        0 <= pos,
        pos + 2 < toks.len(),
        is_atom(toks[pos].kind),
        ({
            let k = toks[pos + 1].kind;
            k is Plus || k is Minus
        }),
        is_atom(toks[pos + 2].kind),
        ends_expression(kind_at(toks, pos + 3)),
    ensures
        parse_expression(toks, pos) == Ok::<(SpecExpr, int), SpecError>(
            (
                binary_node(
                    atom_expr(toks, pos),
                    written_operator(toks[pos + 1].kind)->0,
                    atom_expr(toks, pos + 2),
                ),
                pos + 3,
            ),
        ),
{
    let x = atom_expr(toks, pos);
    let y = atom_expr(toks, pos + 2);
    let e = binary_node(x, written_operator(toks[pos + 1].kind)->0, y);
    let q = pos + 3;
    lemma_atom_alone(toks, pos + 2);
    assert(parse_primary(toks, pos) == Ok::<(SpecExpr, int), SpecError>((x, pos + 1)));
    assert(call_rest(toks, pos + 1, x) == Ok::<(SpecExpr, int), SpecError>((x, pos + 1)));
    assert(parse_unary(toks, pos) == Ok::<(SpecExpr, int), SpecError>((x, pos + 1)));
    assert(factor_rest(toks, pos + 1, x) == Ok::<(SpecExpr, int), SpecError>((x, pos + 1)));
    assert(parse_factor(toks, pos) == Ok::<(SpecExpr, int), SpecError>((x, pos + 1)));
    assert(term_rest(toks, q, e) == Ok::<(SpecExpr, int), SpecError>((e, q)));
    assert(term_rest(toks, pos + 1, x) == Ok::<(SpecExpr, int), SpecError>((e, q)));
    assert(parse_term(toks, pos) == Ok::<(SpecExpr, int), SpecError>((e, q)));
    assert(comparison_rest(toks, q, e) == Ok::<(SpecExpr, int), SpecError>((e, q)));
    assert(parse_comparison(toks, pos) == Ok::<(SpecExpr, int), SpecError>((e, q)));
    assert(equality_rest(toks, q, e) == Ok::<(SpecExpr, int), SpecError>((e, q)));
    assert(parse_equality(toks, pos) == Ok::<(SpecExpr, int), SpecError>((e, q)));
    assert(and_rest(toks, q, e) == Ok::<(SpecExpr, int), SpecError>((e, q)));
    assert(parse_and(toks, pos) == Ok::<(SpecExpr, int), SpecError>((e, q)));
    assert(or_rest(toks, q, e) == Ok::<(SpecExpr, int), SpecError>((e, q)));
}

proof fn lemma_binary_comparison_level(toks: Seq<SpecToken>, pos: int)
    requires
        0 <= pos,
        pos + 2 < toks.len(),
        is_atom(toks[pos].kind),
        ({
            let k = toks[pos + 1].kind;
            k is Less || k is LessEq || k is Greater || k is GreaterEq
        }),
        is_atom(toks[pos + 2].kind),
        ends_expression(kind_at(toks, pos + 3)),
    ensures
        parse_expression(toks, pos) == Ok::<(SpecExpr, int), SpecError>(
            (
                binary_node(
                    atom_expr(toks, pos),
                    written_operator(toks[pos + 1].kind)->0,
                    atom_expr(toks, pos + 2),
                ),
                pos + 3,
            ),
        ),
{
    let x = atom_expr(toks, pos);
    let y = atom_expr(toks, pos + 2);
    let e = binary_node(x, written_operator(toks[pos + 1].kind)->0, y);
    let q = pos + 3;
    lemma_atom_alone(toks, pos + 2);
    assert(parse_primary(toks, pos) == Ok::<(SpecExpr, int), SpecError>((x, pos + 1)));
    assert(call_rest(toks, pos + 1, x) == Ok::<(SpecExpr, int), SpecError>((x, pos + 1)));
    assert(parse_unary(toks, pos) == Ok::<(SpecExpr, int), SpecError>((x, pos + 1)));
    assert(factor_rest(toks, pos + 1, x) == Ok::<(SpecExpr, int), SpecError>((x, pos + 1)));
    assert(parse_factor(toks, pos) == Ok::<(SpecExpr, int), SpecError>((x, pos + 1)));
    assert(term_rest(toks, pos + 1, x) == Ok::<(SpecExpr, int), SpecError>((x, pos + 1)));
    assert(parse_term(toks, pos) == Ok::<(SpecExpr, int), SpecError>((x, pos + 1)));
    assert(comparison_rest(toks, q, e) == Ok::<(SpecExpr, int), SpecError>((e, q)));
    assert(comparison_rest(toks, pos + 1, x) == Ok::<(SpecExpr, int), SpecError>((e, q)));
    assert(parse_comparison(toks, pos) == Ok::<(SpecExpr, int), SpecError>((e, q)));
    assert(equality_rest(toks, q, e) == Ok::<(SpecExpr, int), SpecError>((e, q)));
    assert(parse_equality(toks, pos) == Ok::<(SpecExpr, int), SpecError>((e, q)));
    assert(and_rest(toks, q, e) == Ok::<(SpecExpr, int), SpecError>((e, q)));
    assert(parse_and(toks, pos) == Ok::<(SpecExpr, int), SpecError>((e, q)));
    assert(or_rest(toks, q, e) == Ok::<(SpecExpr, int), SpecError>((e, q)));
}

proof fn lemma_binary_equality_level(toks: Seq<SpecToken>, pos: int)
    requires
        0 <= pos,
        pos + 2 < toks.len(),
        is_atom(toks[pos].kind),
        ({
            let k = toks[pos + 1].kind;
            k is EqEq || k is NotEq
        }),
        is_atom(toks[pos + 2].kind),
        ends_expression(kind_at(toks, pos + 3)),
    ensures
        parse_expression(toks, pos) == Ok::<(SpecExpr, int), SpecError>(
            (
                binary_node(
                    atom_expr(toks, pos),
                    written_operator(toks[pos + 1].kind)->0,
                    atom_expr(toks, pos + 2),
                ),
                pos + 3,
            ),
        ),
{
    let x = atom_expr(toks, pos);
    let y = atom_expr(toks, pos + 2);
    let e = binary_node(x, written_operator(toks[pos + 1].kind)->0, y);
    let q = pos + 3;
    lemma_atom_alone(toks, pos + 2);
    assert(parse_primary(toks, pos) == Ok::<(SpecExpr, int), SpecError>((x, pos + 1)));
    assert(call_rest(toks, pos + 1, x) == Ok::<(SpecExpr, int), SpecError>((x, pos + 1)));
    assert(parse_unary(toks, pos) == Ok::<(SpecExpr, int), SpecError>((x, pos + 1)));
    assert(factor_rest(toks, pos + 1, x) == Ok::<(SpecExpr, int), SpecError>((x, pos + 1)));
    assert(parse_factor(toks, pos) == Ok::<(SpecExpr, int), SpecError>((x, pos + 1)));
    assert(term_rest(toks, pos + 1, x) == Ok::<(SpecExpr, int), SpecError>((x, pos + 1)));
    assert(parse_term(toks, pos) == Ok::<(SpecExpr, int), SpecError>((x, pos + 1)));
    assert(comparison_rest(toks, pos + 1, x) == Ok::<(SpecExpr, int), SpecError>((x, pos + 1)));
    assert(parse_comparison(toks, pos) == Ok::<(SpecExpr, int), SpecError>((x, pos + 1)));
    assert(equality_rest(toks, q, e) == Ok::<(SpecExpr, int), SpecError>((e, q)));
    assert(equality_rest(toks, pos + 1, x) == Ok::<(SpecExpr, int), SpecError>((e, q)));
    assert(parse_equality(toks, pos) == Ok::<(SpecExpr, int), SpecError>((e, q)));
    assert(and_rest(toks, q, e) == Ok::<(SpecExpr, int), SpecError>((e, q)));
    assert(parse_and(toks, pos) == Ok::<(SpecExpr, int), SpecError>((e, q)));
    assert(or_rest(toks, q, e) == Ok::<(SpecExpr, int), SpecError>((e, q)));
}

proof fn lemma_binary_and_level(toks: Seq<SpecToken>, pos: int)
    requires
        0 <= pos,
        pos + 2 < toks.len(),
        is_atom(toks[pos].kind),
        ({
            let k = toks[pos + 1].kind;
            k is AndAnd
        }),
        is_atom(toks[pos + 2].kind),
        ends_expression(kind_at(toks, pos + 3)),
    ensures
        parse_expression(toks, pos) == Ok::<(SpecExpr, int), SpecError>(
            (
                binary_node(
                    atom_expr(toks, pos),
                    written_operator(toks[pos + 1].kind)->0,
                    atom_expr(toks, pos + 2),
                ),
                pos + 3,
            ),
        ),
{
    let x = atom_expr(toks, pos);
    let y = atom_expr(toks, pos + 2);
    let e = binary_node(x, written_operator(toks[pos + 1].kind)->0, y);
    let q = pos + 3;
    lemma_atom_alone(toks, pos + 2);
    assert(parse_primary(toks, pos) == Ok::<(SpecExpr, int), SpecError>((x, pos + 1)));
    assert(call_rest(toks, pos + 1, x) == Ok::<(SpecExpr, int), SpecError>((x, pos + 1)));
    assert(parse_unary(toks, pos) == Ok::<(SpecExpr, int), SpecError>((x, pos + 1)));
    assert(factor_rest(toks, pos + 1, x) == Ok::<(SpecExpr, int), SpecError>((x, pos + 1)));
    assert(parse_factor(toks, pos) == Ok::<(SpecExpr, int), SpecError>((x, pos + 1)));
    assert(term_rest(toks, pos + 1, x) == Ok::<(SpecExpr, int), SpecError>((x, pos + 1)));
    assert(parse_term(toks, pos) == Ok::<(SpecExpr, int), SpecError>((x, pos + 1)));
    assert(comparison_rest(toks, pos + 1, x) == Ok::<(SpecExpr, int), SpecError>((x, pos + 1)));
    assert(parse_comparison(toks, pos) == Ok::<(SpecExpr, int), SpecError>((x, pos + 1)));
    assert(equality_rest(toks, pos + 1, x) == Ok::<(SpecExpr, int), SpecError>((x, pos + 1)));
    assert(parse_equality(toks, pos) == Ok::<(SpecExpr, int), SpecError>((x, pos + 1)));
    assert(and_rest(toks, q, e) == Ok::<(SpecExpr, int), SpecError>((e, q)));
    assert(and_rest(toks, pos + 1, x) == Ok::<(SpecExpr, int), SpecError>((e, q)));
    assert(parse_and(toks, pos) == Ok::<(SpecExpr, int), SpecError>((e, q)));
    assert(or_rest(toks, q, e) == Ok::<(SpecExpr, int), SpecError>((e, q)));
}

proof fn lemma_binary_or_level(toks: Seq<SpecToken>, pos: int)
    requires
        0 <= pos,
        pos + 2 < toks.len(),
        is_atom(toks[pos].kind),
        ({
            let k = toks[pos + 1].kind;
            k is OrOr
        }),
        is_atom(toks[pos + 2].kind),
        ends_expression(kind_at(toks, pos + 3)),
    ensures
        parse_expression(toks, pos) == Ok::<(SpecExpr, int), SpecError>(
            (
                binary_node(
                    atom_expr(toks, pos),
                    written_operator(toks[pos + 1].kind)->0,
                    atom_expr(toks, pos + 2),
                ),
                pos + 3,
            ),
        ),
{
    let x = atom_expr(toks, pos);
    let y = atom_expr(toks, pos + 2);
    let e = binary_node(x, written_operator(toks[pos + 1].kind)->0, y);
    let q = pos + 3;
    lemma_atom_alone(toks, pos + 2);
    assert(parse_primary(toks, pos) == Ok::<(SpecExpr, int), SpecError>((x, pos + 1)));
    assert(call_rest(toks, pos + 1, x) == Ok::<(SpecExpr, int), SpecError>((x, pos + 1)));
    assert(parse_unary(toks, pos) == Ok::<(SpecExpr, int), SpecError>((x, pos + 1)));
    assert(factor_rest(toks, pos + 1, x) == Ok::<(SpecExpr, int), SpecError>((x, pos + 1)));
    assert(parse_factor(toks, pos) == Ok::<(SpecExpr, int), SpecError>((x, pos + 1)));
    assert(term_rest(toks, pos + 1, x) == Ok::<(SpecExpr, int), SpecError>((x, pos + 1)));
    assert(parse_term(toks, pos) == Ok::<(SpecExpr, int), SpecError>((x, pos + 1)));
    assert(comparison_rest(toks, pos + 1, x) == Ok::<(SpecExpr, int), SpecError>((x, pos + 1)));
    assert(parse_comparison(toks, pos) == Ok::<(SpecExpr, int), SpecError>((x, pos + 1)));
    assert(equality_rest(toks, pos + 1, x) == Ok::<(SpecExpr, int), SpecError>((x, pos + 1)));
    assert(parse_equality(toks, pos) == Ok::<(SpecExpr, int), SpecError>((x, pos + 1)));
    assert(and_rest(toks, pos + 1, x) == Ok::<(SpecExpr, int), SpecError>((x, pos + 1)));
    assert(parse_and(toks, pos) == Ok::<(SpecExpr, int), SpecError>((x, pos + 1)));
    assert(or_rest(toks, q, e) == Ok::<(SpecExpr, int), SpecError>((e, q)));
    assert(or_rest(toks, pos + 1, x) == Ok::<(SpecExpr, int), SpecError>((e, q)));
}

/// Every binary operator token writes its own operator: the tokens `x op y`,
/// with `x` and `y` literals or names and the expression ending after `y`,
/// parse as the node `op` of `x` and `y`.
pub proof fn lemma_binary_operator_tokens(toks: Seq<SpecToken>, pos: int)
    requires
        0 <= pos,
        pos + 2 < toks.len(),
        is_atom(toks[pos].kind),
        written_operator(toks[pos + 1].kind) is Some,
        is_atom(toks[pos + 2].kind),
        ends_expression(kind_at(toks, pos + 3)),
    ensures
        parse_expression(toks, pos) == Ok::<(SpecExpr, int), SpecError>(
            (
                binary_node(
                    atom_expr(toks, pos),
                    written_operator(toks[pos + 1].kind)->0,
                    atom_expr(toks, pos + 2),
                ),
                pos + 3,
            ),
        ),
{
    let k = toks[pos + 1].kind;
    if k is Star || k is Slash {
        lemma_binary_factor_level(toks, pos);
    } else if k is Plus || k is Minus {
        lemma_binary_term_level(toks, pos);
    } else if k is Less || k is LessEq || k is Greater || k is GreaterEq {
        lemma_binary_comparison_level(toks, pos);
    } else if k is EqEq || k is NotEq {
        lemma_binary_equality_level(toks, pos);
    } else if k is AndAnd {
        lemma_binary_and_level(toks, pos);
    } else {
        lemma_binary_or_level(toks, pos);
    }
}

/// `!` and unary `-` apply to the operand after them: the tokens `! x` and
/// `- x`, with `x` a literal or name and the expression ending after it,
/// parse as `Not` and `Neg` of `x`, at the operator's position.
pub proof fn lemma_unary_operator_tokens(toks: Seq<SpecToken>, pos: int)
    requires
        0 <= pos,
        pos + 1 < toks.len(),
        toks[pos].kind is Bang || toks[pos].kind is Minus,
        is_atom(toks[pos + 1].kind),
        ends_expression(kind_at(toks, pos + 2)),
    ensures
        parse_expression(toks, pos) == Ok::<(SpecExpr, int), SpecError>(
            (
                SpecExpr {
                    kind: SpecExprKind::Unary {
                        op: if toks[pos].kind is Bang {
                            UnaryOp::Not
                        } else {
                            UnaryOp::Neg
                        },
                        expr: Box::new(atom_expr(toks, pos + 1)),
                    },
                    span: span_at(toks, pos),
                },
                pos + 2,
            ),
        ),
{
    let x = atom_expr(toks, pos + 1);
    let e = SpecExpr {
        kind: SpecExprKind::Unary {
            op: if toks[pos].kind is Bang {
                UnaryOp::Not
            } else {
                UnaryOp::Neg
            },
            expr: Box::new(x),
        },
        span: span_at(toks, pos),
    };
    let q = pos + 2;
    assert(parse_primary(toks, pos + 1) == Ok::<(SpecExpr, int), SpecError>((x, q)));
    assert(call_rest(toks, q, x) == Ok::<(SpecExpr, int), SpecError>((x, q)));
    assert(parse_unary(toks, pos + 1) == Ok::<(SpecExpr, int), SpecError>((x, q)));
    assert(parse_unary(toks, pos) == Ok::<(SpecExpr, int), SpecError>((e, q)));
    assert(factor_rest(toks, q, e) == Ok::<(SpecExpr, int), SpecError>((e, q)));
    assert(parse_factor(toks, pos) == Ok::<(SpecExpr, int), SpecError>((e, q)));
    assert(term_rest(toks, q, e) == Ok::<(SpecExpr, int), SpecError>((e, q)));
    assert(parse_term(toks, pos) == Ok::<(SpecExpr, int), SpecError>((e, q)));
    lemma_term_is_expression(toks, pos, e, q);
}


/// `let [mut] name = expr;` declares `name`, mutable exactly when `mut` is
/// written, with the expression that follows `=` as its value.
pub proof fn lemma_let_statement(
    toks: Seq<SpecToken>,
    pos: int,
    mutable: bool,
    value: SpecExpr,
    end: int,
)
    requires
        0 <= pos,
        pos + 3 < toks.len(),
        toks[pos].kind is Let,
        mutable <==> toks[pos + 1].kind is Mut,
        ({
            let q = if mutable { pos + 2 } else { pos + 1 };
            &&& q + 1 < toks.len()
            &&& toks[q].kind is Identifier
            &&& toks[q + 1].kind is Assign
            &&& parse_expression(toks, q + 2) == Ok::<(SpecExpr, int), SpecError>((value, end))
            &&& q + 2 <= end < toks.len()
            &&& toks[end].kind is Semicolon
        }),
    ensures
        parse_stmt(toks, pos) == Ok::<(SpecStmt, int), SpecError>(
            (
                SpecStmt {
                    kind: SpecStmtKind::Let {
                        name: toks[if mutable { pos + 2 } else { pos + 1 }].kind->Identifier_0,
                        mutable,
                        value,
                    },
                    span: span_at(toks, pos),
                },
                end + 1,
            ),
        ),
{
}

/// `return expr;` returns the expression that follows `return`.
pub proof fn lemma_return_statement(toks: Seq<SpecToken>, pos: int, value: SpecExpr, end: int)
    requires
        0 <= pos < toks.len(),
        toks[pos].kind is Return,
        parse_expression(toks, pos + 1) == Ok::<(SpecExpr, int), SpecError>((value, end)),
        pos + 1 <= end < toks.len(),
        toks[end].kind is Semicolon,
    ensures
        parse_stmt(toks, pos) == Ok::<(SpecStmt, int), SpecError>(
            (SpecStmt { kind: SpecStmtKind::Return(value), span: span_at(toks, pos) }, end + 1),
        ),
{
}

/// `if cond { .. } else { .. }` keeps the condition, the first block as
/// the `then` branch and the block after `else` as the `else` branch; without
/// `else` there is no `else` branch.
pub proof fn lemma_if_statement(
    toks: Seq<SpecToken>,
    pos: int,
    cond: SpecExpr,
    p2: int,
    then_branch: SpecStmt,
    p3: int,
)
    requires
        0 <= pos < toks.len(),
        toks[pos].kind is If,
        parse_expression(toks, pos + 1) == Ok::<(SpecExpr, int), SpecError>((cond, p2)),
        pos + 1 <= p2 <= p3 <= toks.len(),
        parse_block(toks, p2) == Ok::<(SpecStmt, int), SpecError>((then_branch, p3)),
    ensures
        !(kind_at(toks, p3) is Else) ==> parse_stmt(toks, pos) == Ok::<(SpecStmt, int), SpecError>(
            (
                SpecStmt {
                    kind: SpecStmtKind::If {
                        cond,
                        then_branch: Box::new(then_branch),
                        else_branch: None,
                    },
                    span: span_at(toks, pos),
                },
                p3,
            ),
        ),
        kind_at(toks, p3) is Else && kind_at(toks, p3 + 1) is LBrace ==> (parse_block(toks, p3 + 1) matches Ok((else_branch, p5)) ==> parse_stmt(toks, pos) == Ok::<(SpecStmt, int), SpecError>(
            (
                SpecStmt {
                    kind: SpecStmtKind::If {
                        cond,
                        then_branch: Box::new(then_branch),
                        else_branch: Some(Box::new(else_branch)),
                    },
                    span: span_at(toks, pos),
                },
                p5,
            ),
        )),
{
}

} // verus!
