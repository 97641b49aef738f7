//! The parser: from a token stream to a program, by recursive descent.
//!
//! Each parsing method is proved to return exactly what the grammar in
//! `grammar` gives at the position where it starts.
use vstd::prelude::*;

use crate::ast::{
    exprs_view, functions_view, params_view, stmts_view, BinaryOp, Expr, ExprKind, Function, Param,
    Program, Span, SpecExpr, SpecFunction, SpecParam, SpecProgram, SpecStmt, Stmt, StmtKind,
    TypeName, UnaryOp,
};
use crate::grammar::{
    adv_pos, and_rest, arg_items, arg_list, block_items, call_rest, comparison_op, comparison_rest,
    equality_op, equality_rest, expect_identifier, expect_kind, factor_op, factor_rest, kind_at,
    literal_kind, or_rest, param_items, parse_and, parse_assign, parse_block, parse_call,
    parse_comparison, parse_equality, parse_expr_stmt, parse_expression, parse_factor,
    parse_function, parse_if, parse_let, parse_or, parse_primary, parse_return, parse_stmt,
    parse_term, parse_type_name, parse_unary, parse_while, program_items, span_at, term_op,
    term_rest, token_error, Parsed,
};
use crate::lexer::{ends_with_single_eof, tokens_view, SpecToken, SpecTokenKind, Token, TokenKind};
use crate::text::{render_error, rendered, text, SpecError};

verus! {

#[derive(Debug, Clone, PartialEq, Eq)]
pub struct ParserError {
    pub message: String,
    pub line: usize,
    pub column: usize,
}

impl View for ParserError {
    type V = SpecError;

    open spec fn view(&self) -> SpecError {
        SpecError { message: self.message@, line: self.line, column: self.column }
    }
}

impl ParserError {
    /// The text `[parser] <message> at line <line>, column <column>`.
    pub fn render(&self) -> (s: String)
        ensures
            s@ == rendered("[parser] "@, self@),
    {
        render_error("[parser] ", &self.message, self.line, self.column)
    }
}

/// Some token at or after `pos` is `Eof`.
pub open spec fn has_eof_from(toks: Seq<SpecToken>, pos: int) -> bool {
    exists|k: int| pos <= k < toks.len() && (#[trigger] toks[k]).kind is Eof
}

pub open spec fn stmt_outcome(spec: Parsed<SpecStmt>, res: Result<Stmt, ParserError>, end: int) -> bool {
    match res {
        Ok(s) => spec == Ok::<(SpecStmt, int), SpecError>((s@, end)),
        Err(e) => spec == Err::<(SpecStmt, int), SpecError>(e@),
    }
}

pub open spec fn expr_outcome(spec: Parsed<SpecExpr>, res: Result<Expr, ParserError>, end: int) -> bool {
    match res {
        Ok(x) => spec == Ok::<(SpecExpr, int), SpecError>((x@, end)),
        Err(e) => spec == Err::<(SpecExpr, int), SpecError>(e@),
    }
}

pub open spec fn expect_outcome(
    spec: Result<int, SpecError>,
    res: Result<Span, ParserError>,
    toks: Seq<SpecToken>,
    start: int,
    end: int,
) -> bool {
    match res {
        Ok(sp) => spec == Ok::<int, SpecError>(end) && sp == span_at(toks, start),
        Err(e) => spec == Err::<int, SpecError>(e@),
    }
}

pub struct Parser {
    tokens: Vec<Token>,
    pos: usize,
}

impl Parser {
    /// The views of the tokens being parsed.
    pub closed spec fn toks(&self) -> Seq<SpecToken> {
        tokens_view(self.tokens@)
    }

    /// The index of the next token.
    pub closed spec fn position(&self) -> int {
        self.pos as int
    }

    /// The parser stands on a token and an `Eof` lies ahead.
    pub open spec fn wf(&self) -> bool {
        &&& 0 <= self.position() < self.toks().len()
        &&& has_eof_from(self.toks(), self.position())
    }

    pub fn new(tokens: Vec<Token>) -> (p: Self)
        ensures
            p.toks() == tokens_view(tokens@),
            p.position() == 0,
            ends_with_single_eof(p.toks()) ==> p.wf(),
    {
        let p = Parser { tokens, pos: 0 };
        proof {
            let ts = p.toks();
            if ends_with_single_eof(ts) {
                assert(ts[ts.len() - 1].kind is Eof);
            }
        }
        p
    }

    /// Parses functions up to `Eof`.
    #[verifier::loop_isolation(false)]
    pub fn parse_program(&mut self) -> (res: Result<Program, ParserError>)
        requires
            old(self).wf(),
        ensures
            match res {
                Ok(p) => program_items(old(self).toks(), old(self).position(), Seq::empty()) == Ok::<
                    SpecProgram,
                    SpecError,
                >(p@),
                Err(e) => program_items(old(self).toks(), old(self).position(), Seq::empty())
                    == Err::<SpecProgram, SpecError>(e@),
            },
    {
        let ghost toks = self.toks();
        let ghost p0 = self.position();
        let mut functions: Vec<Function> = Vec::new();
        assert(functions_view(functions@) =~= Seq::<SpecFunction>::empty());
        while !self.is_eof()
            invariant
                self.wf(),
                self.toks() == toks,
                program_items(toks, p0, Seq::empty()) == program_items(
                    toks,
                    self.position(),
                    functions_view(functions@),
                ),
            decreases toks.len() - self.pos,
        {
            let ghost before = functions@;
            let ghost p = self.position();
            let f = match self.parse_function() {
                Ok(f) => f,
                Err(e) => {
                    return Err(e);
                },
            };
            functions.push(f);
            assert(functions_view(functions@) =~= functions_view(before).push(f@));
        }
        Ok(Program { functions })
    }

    // ------------------------------------------------------------------
    // Statements and expressions
    // ------------------------------------------------------------------

    fn parse_stmt(&mut self) -> (res: Result<Stmt, ParserError>)
        requires
            old(self).wf(),
        ensures
            final(self).wf(),
            final(self).toks() == old(self).toks(),
            res is Ok ==> old(self).position() < final(self).position(),
            stmt_outcome(parse_stmt(old(self).toks(), old(self).position()), res, final(self).position()),
        decreases old(self).toks().len() - old(self).position(), 29int,
    {
        let ghost toks = self.toks();
        let ghost p0 = self.position();
        if self.at_let() {
            self.parse_let_stmt()
        } else if self.at_if() {
            self.parse_if_stmt()
        } else if self.at_while() {
            self.parse_while_stmt()
        } else if self.at_return() {
            self.parse_return_stmt()
        } else if self.at_lbrace() {
            self.parse_block_stmt()
        } else if self.at_identifier() && self.peek_is_assign() {
            self.parse_assign_stmt()
        } else {
            self.parse_expr_stmt()
        }
    }

    #[verifier::loop_isolation(false)]
    fn parse_block_stmt(&mut self) -> (res: Result<Stmt, ParserError>)
        requires
            old(self).wf(),
        ensures
            final(self).wf(),
            final(self).toks() == old(self).toks(),
            res is Ok ==> old(self).position() < final(self).position(),
            stmt_outcome(parse_block(old(self).toks(), old(self).position()), res, final(self).position()),
        decreases old(self).toks().len() - old(self).position(), 28int,
    {
        let ghost toks = self.toks();
        let ghost p0 = self.position();
        let start = match self.expect_lbrace("expected `{`") {
            Ok(x) => x,
            Err(e) => {
                return Err(e);
            },
        };
        let mut statements: Vec<Stmt> = Vec::new();
        assert(stmts_view(statements@) =~= Seq::<SpecStmt>::empty());
        while !self.at_rbrace()
            invariant
                self.wf(),
                self.toks() == toks,
                p0 < self.position(),
                parse_block(toks, p0) == block_items(
                    toks,
                    self.position(),
                    stmts_view(statements@),
                    start,
                ),
            decreases toks.len() - self.position(),
        {
            if self.is_eof() {
                return Err(self.error_here("unterminated block"));
            }
            let s = match self.parse_stmt() {
                Ok(x) => x,
                Err(e) => {
                    return Err(e);
                },
            };
            let ghost before = statements@;
            statements.push(s);
            assert(statements@.drop_last() =~= before);
        }
        match self.expect_rbrace("expected `}`") {
            Ok(_) => {},
            Err(e) => {
                return Err(e);
            },
        }
        Ok(Stmt { kind: StmtKind::Block(statements), span: start })
    }

    #[verifier::loop_isolation(false)]
    fn parse_let_stmt(&mut self) -> (res: Result<Stmt, ParserError>)
        requires
            old(self).wf(),
        ensures
            final(self).wf(),
            final(self).toks() == old(self).toks(),
            res is Ok ==> old(self).position() < final(self).position(),
            stmt_outcome(parse_let(old(self).toks(), old(self).position()), res, final(self).position()),
        decreases old(self).toks().len() - old(self).position(), 28int,
    {
        let ghost toks = self.toks();
        let ghost p0 = self.position();
        let start = self.advance();
        let mutable = if self.at_mut() {
            self.advance();
            true
        } else {
            false
        };
        let (name, _) = match self.expect_identifier("expected variable name after `let`") {
            Ok(x) => x,
            Err(e) => {
                return Err(e);
            },
        };
        match self.expect_assign("expected `=` in let declaration") {
            Ok(_) => {},
            Err(e) => {
                return Err(e);
            },
        }
        let value = match self.parse_expression() {
            Ok(x) => x,
            Err(e) => {
                return Err(e);
            },
        };
        match self.expect_semicolon("expected `;` after let declaration") {
            Ok(_) => {},
            Err(e) => {
                return Err(e);
            },
        }
        Ok(Stmt { kind: StmtKind::Let { name, mutable, value }, span: start })
    }

    #[verifier::loop_isolation(false)]
    fn parse_assign_stmt(&mut self) -> (res: Result<Stmt, ParserError>)
        requires
            old(self).wf(),
        ensures
            final(self).wf(),
            final(self).toks() == old(self).toks(),
            res is Ok ==> old(self).position() < final(self).position(),
            stmt_outcome(parse_assign(old(self).toks(), old(self).position()), res, final(self).position()),
        decreases old(self).toks().len() - old(self).position(), 28int,
    {
        let ghost toks = self.toks();
        let ghost p0 = self.position();
        let (name, span) = match self.expect_identifier("expected assignment target") {
            Ok(x) => x,
            Err(e) => {
                return Err(e);
            },
        };
        match self.expect_assign("expected `=` in assignment") {
            Ok(_) => {},
            Err(e) => {
                return Err(e);
            },
        }
        let value = match self.parse_expression() {
            Ok(x) => x,
            Err(e) => {
                return Err(e);
            },
        };
        match self.expect_semicolon("expected `;` after assignment") {
            Ok(_) => {},
            Err(e) => {
                return Err(e);
            },
        }
        Ok(Stmt { kind: StmtKind::Assign { name, value }, span })
    }

    #[verifier::loop_isolation(false)]
    fn parse_if_stmt(&mut self) -> (res: Result<Stmt, ParserError>)
        requires
            old(self).wf(),
        ensures
            final(self).wf(),
            final(self).toks() == old(self).toks(),
            res is Ok ==> old(self).position() < final(self).position(),
            stmt_outcome(parse_if(old(self).toks(), old(self).position()), res, final(self).position()),
        decreases old(self).toks().len() - old(self).position(), 28int,
    {
        let ghost toks = self.toks();
        let ghost p0 = self.position();
        let start = self.advance();
        let cond = match self.parse_expression() {
            Ok(x) => x,
            Err(e) => {
                return Err(e);
            },
        };
        let then_branch = match self.parse_block_stmt() {
            Ok(x) => x,
            Err(e) => {
                return Err(e);
            },
        };
        let else_branch = if self.at_else() {
            self.advance();
            let branch = if self.at_if() {
                self.parse_if_stmt()
            } else {
                self.parse_block_stmt()
            };
            match branch {
                Ok(b) => Some(Box::new(b)),
                Err(e) => {
                    return Err(e);
                },
            }
        } else {
            None
        };
        Ok(
            Stmt {
                kind: StmtKind::If { cond, then_branch: Box::new(then_branch), else_branch },
                span: start,
            },
        )
    }

    #[verifier::loop_isolation(false)]
    fn parse_while_stmt(&mut self) -> (res: Result<Stmt, ParserError>)
        requires
            old(self).wf(),
        ensures
            final(self).wf(),
            final(self).toks() == old(self).toks(),
            res is Ok ==> old(self).position() < final(self).position(),
            stmt_outcome(parse_while(old(self).toks(), old(self).position()), res, final(self).position()),
        decreases old(self).toks().len() - old(self).position(), 28int,
    {
        let ghost toks = self.toks();
        let ghost p0 = self.position();
        let start = self.advance();
        let cond = match self.parse_expression() {
            Ok(x) => x,
            Err(e) => {
                return Err(e);
            },
        };
        let body = match self.parse_block_stmt() {
            Ok(x) => x,
            Err(e) => {
                return Err(e);
            },
        };
        Ok(Stmt { kind: StmtKind::While { cond, body: Box::new(body) }, span: start })
    }

    #[verifier::loop_isolation(false)]
    fn parse_return_stmt(&mut self) -> (res: Result<Stmt, ParserError>)
        requires
            old(self).wf(),
        ensures
            final(self).wf(),
            final(self).toks() == old(self).toks(),
            res is Ok ==> old(self).position() < final(self).position(),
            stmt_outcome(parse_return(old(self).toks(), old(self).position()), res, final(self).position()),
        decreases old(self).toks().len() - old(self).position(), 28int,
    {
        let ghost toks = self.toks();
        let ghost p0 = self.position();
        let start = self.advance();
        let value = match self.parse_expression() {
            Ok(x) => x,
            Err(e) => {
                return Err(e);
            },
        };
        match self.expect_semicolon("expected `;` after return") {
            Ok(_) => {},
            Err(e) => {
                return Err(e);
            },
        }
        Ok(Stmt { kind: StmtKind::Return(value), span: start })
    }

    #[verifier::loop_isolation(false)]
    fn parse_expr_stmt(&mut self) -> (res: Result<Stmt, ParserError>)
        requires
            old(self).wf(),
        ensures
            final(self).wf(),
            final(self).toks() == old(self).toks(),
            res is Ok ==> old(self).position() < final(self).position(),
            stmt_outcome(parse_expr_stmt(old(self).toks(), old(self).position()), res, final(self).position()),
        decreases old(self).toks().len() - old(self).position(), 28int,
    {
        let ghost toks = self.toks();
        let ghost p0 = self.position();
        let value = match self.parse_expression() {
            Ok(x) => x,
            Err(e) => {
                return Err(e);
            },
        };
        match self.expect_semicolon("expected `;` after expression") {
            Ok(_) => {},
            Err(e) => {
                return Err(e);
            },
        }
        let span = value.span;
        Ok(Stmt { kind: StmtKind::ExprStmt(value), span })
    }

    fn parse_expression(&mut self) -> (res: Result<Expr, ParserError>)
        requires
            old(self).wf(),
        ensures
            final(self).wf(),
            final(self).toks() == old(self).toks(),
            res is Ok ==> old(self).position() < final(self).position(),
            expr_outcome(parse_expression(old(self).toks(), old(self).position()), res, final(self).position()),
        decreases old(self).toks().len() - old(self).position(), 20int,
    {
        let ghost toks = self.toks();
        let ghost p0 = self.position();
        self.parse_logical_or()
    }

    #[verifier::loop_isolation(false)]
    fn parse_logical_or(&mut self) -> (res: Result<Expr, ParserError>)
        requires
            old(self).wf(),
        ensures
            final(self).wf(),
            final(self).toks() == old(self).toks(),
            res is Ok ==> old(self).position() < final(self).position(),
            expr_outcome(parse_or(old(self).toks(), old(self).position()), res, final(self).position()),
        decreases old(self).toks().len() - old(self).position(), 19int,
    {
        let ghost toks = self.toks();
        let ghost p0 = self.position();
        let mut expr = match self.parse_logical_and() {
            Ok(x) => x,
            Err(e) => {
                return Err(e);
            },
        };
        while self.at_or_or()
            invariant
                self.wf(),
                self.toks() == toks,
                p0 < self.position(),
                parse_or(toks, p0) == or_rest(toks, self.position(), expr@),
            decreases toks.len() - self.position(),
        {
            self.advance();
            let right = match self.parse_logical_and() {
                Ok(x) => x,
                Err(e) => {
                    return Err(e);
                },
            };
            let span = expr.span;
            expr = Expr {
                kind: ExprKind::Binary { left: Box::new(expr), op: BinaryOp::Or, right: Box::new(right) },
                span,
            };
        }
        Ok(expr)
    }

    #[verifier::loop_isolation(false)]
    fn parse_logical_and(&mut self) -> (res: Result<Expr, ParserError>)
        requires
            old(self).wf(),
        ensures
            final(self).wf(),
            final(self).toks() == old(self).toks(),
            res is Ok ==> old(self).position() < final(self).position(),
            expr_outcome(parse_and(old(self).toks(), old(self).position()), res, final(self).position()),
        decreases old(self).toks().len() - old(self).position(), 17int,
    {
        let ghost toks = self.toks();
        let ghost p0 = self.position();
        let mut expr = match self.parse_equality() {
            Ok(x) => x,
            Err(e) => {
                return Err(e);
            },
        };
        while self.at_and_and()
            invariant
                self.wf(),
                self.toks() == toks,
                p0 < self.position(),
                parse_and(toks, p0) == and_rest(toks, self.position(), expr@),
            decreases toks.len() - self.position(),
        {
            self.advance();
            let right = match self.parse_equality() {
                Ok(x) => x,
                Err(e) => {
                    return Err(e);
                },
            };
            let span = expr.span;
            expr = Expr {
                kind: ExprKind::Binary { left: Box::new(expr), op: BinaryOp::And, right: Box::new(right) },
                span,
            };
        }
        Ok(expr)
    }

    #[verifier::loop_isolation(false)]
    fn parse_equality(&mut self) -> (res: Result<Expr, ParserError>)
        requires
            old(self).wf(),
        ensures
            final(self).wf(),
            final(self).toks() == old(self).toks(),
            res is Ok ==> old(self).position() < final(self).position(),
            expr_outcome(parse_equality(old(self).toks(), old(self).position()), res, final(self).position()),
        decreases old(self).toks().len() - old(self).position(), 15int,
    {
        let ghost toks = self.toks();
        let ghost p0 = self.position();
        let mut expr = match self.parse_comparison() {
            Ok(x) => x,
            Err(e) => {
                return Err(e);
            },
        };
        loop
            invariant
                self.wf(),
                self.toks() == toks,
                p0 < self.position(),
                parse_equality(toks, p0) == equality_rest(toks, self.position(), expr@),
            decreases toks.len() - self.position(),
        {
            let op = match self.equality_op_here() {
                Some(op) => op,
                None => {
                    break;
                },
            };
            self.advance();
            let right = match self.parse_comparison() {
                Ok(x) => x,
                Err(e) => {
                    return Err(e);
                },
            };
            let span = expr.span;
            expr = Expr {
                kind: ExprKind::Binary { left: Box::new(expr), op, right: Box::new(right) },
                span,
            };
        }
        Ok(expr)
    }

    #[verifier::loop_isolation(false)]
    fn parse_comparison(&mut self) -> (res: Result<Expr, ParserError>)
        requires
            old(self).wf(),
        ensures
            final(self).wf(),
            final(self).toks() == old(self).toks(),
            res is Ok ==> old(self).position() < final(self).position(),
            expr_outcome(parse_comparison(old(self).toks(), old(self).position()), res, final(self).position()),
        decreases old(self).toks().len() - old(self).position(), 13int,
    {
        let ghost toks = self.toks();
        let ghost p0 = self.position();
        let mut expr = match self.parse_term() {
            Ok(x) => x,
            Err(e) => {
                return Err(e);
            },
        };
        loop
            invariant
                self.wf(),
                self.toks() == toks,
                p0 < self.position(),
                parse_comparison(toks, p0) == comparison_rest(toks, self.position(), expr@),
            decreases toks.len() - self.position(),
        {
            let op = match self.comparison_op_here() {
                Some(op) => op,
                None => {
                    break;
                },
            };
            self.advance();
            let right = match self.parse_term() {
                Ok(x) => x,
                Err(e) => {
                    return Err(e);
                },
            };
            let span = expr.span;
            expr = Expr {
                kind: ExprKind::Binary { left: Box::new(expr), op, right: Box::new(right) },
                span,
            };
        }
        Ok(expr)
    }

    #[verifier::loop_isolation(false)]
    fn parse_term(&mut self) -> (res: Result<Expr, ParserError>)
        requires
            old(self).wf(),
        ensures
            final(self).wf(),
            final(self).toks() == old(self).toks(),
            res is Ok ==> old(self).position() < final(self).position(),
            expr_outcome(parse_term(old(self).toks(), old(self).position()), res, final(self).position()),
        decreases old(self).toks().len() - old(self).position(), 11int,
    {
        let ghost toks = self.toks();
        let ghost p0 = self.position();
        let mut expr = match self.parse_factor() {
            Ok(x) => x,
            Err(e) => {
                return Err(e);
            },
        };
        loop
            invariant
                self.wf(),
                self.toks() == toks,
                p0 < self.position(),
                parse_term(toks, p0) == term_rest(toks, self.position(), expr@),
            decreases toks.len() - self.position(),
        {
            let op = match self.term_op_here() {
                Some(op) => op,
                None => {
                    break;
                },
            };
            self.advance();
            let right = match self.parse_factor() {
                Ok(x) => x,
                Err(e) => {
                    return Err(e);
                },
            };
            let span = expr.span;
            expr = Expr {
                kind: ExprKind::Binary { left: Box::new(expr), op, right: Box::new(right) },
                span,
            };
        }
        Ok(expr)
    }

    #[verifier::loop_isolation(false)]
    fn parse_factor(&mut self) -> (res: Result<Expr, ParserError>)
        requires
            old(self).wf(),
        ensures
            final(self).wf(),
            final(self).toks() == old(self).toks(),
            res is Ok ==> old(self).position() < final(self).position(),
            expr_outcome(parse_factor(old(self).toks(), old(self).position()), res, final(self).position()),
        decreases old(self).toks().len() - old(self).position(), 9int,
    {
        let ghost toks = self.toks();
        let ghost p0 = self.position();
        let mut expr = match self.parse_unary() {
            Ok(x) => x,
            Err(e) => {
                return Err(e);
            },
        };
        loop
            invariant
                self.wf(),
                self.toks() == toks,
                p0 < self.position(),
                parse_factor(toks, p0) == factor_rest(toks, self.position(), expr@),
            decreases toks.len() - self.position(),
        {
            let op = match self.factor_op_here() {
                Some(op) => op,
                None => {
                    break;
                },
            };
            self.advance();
            let right = match self.parse_unary() {
                Ok(x) => x,
                Err(e) => {
                    return Err(e);
                },
            };
            let span = expr.span;
            expr = Expr {
                kind: ExprKind::Binary { left: Box::new(expr), op, right: Box::new(right) },
                span,
            };
        }
        Ok(expr)
    }

    fn parse_unary(&mut self) -> (res: Result<Expr, ParserError>)
        requires
            old(self).wf(),
        ensures
            final(self).wf(),
            final(self).toks() == old(self).toks(),
            res is Ok ==> old(self).position() < final(self).position(),
            expr_outcome(parse_unary(old(self).toks(), old(self).position()), res, final(self).position()),
        decreases old(self).toks().len() - old(self).position(), 7int,
    {
        let ghost toks = self.toks();
        let ghost p0 = self.position();
        if self.at_bang() {
            let span = self.advance();
            let operand = match self.parse_unary() {
                Ok(x) => x,
                Err(e) => {
                    return Err(e);
                },
            };
            Ok(Expr { kind: ExprKind::Unary { op: UnaryOp::Not, expr: Box::new(operand) }, span })
        } else if self.at_minus() {
            let span = self.advance();
            let operand = match self.parse_unary() {
                Ok(x) => x,
                Err(e) => {
                    return Err(e);
                },
            };
            Ok(Expr { kind: ExprKind::Unary { op: UnaryOp::Neg, expr: Box::new(operand) }, span })
        } else {
            self.parse_call()
        }
    }

    #[verifier::loop_isolation(false)]
    fn parse_call(&mut self) -> (res: Result<Expr, ParserError>)
        requires
            old(self).wf(),
        ensures
            final(self).wf(),
            final(self).toks() == old(self).toks(),
            res is Ok ==> old(self).position() < final(self).position(),
            expr_outcome(parse_call(old(self).toks(), old(self).position()), res, final(self).position()),
        decreases old(self).toks().len() - old(self).position(), 6int,
    {
        let ghost toks = self.toks();
        let ghost p0 = self.position();
        let mut expr = match self.parse_primary() {
            Ok(x) => x,
            Err(e) => {
                return Err(e);
            },
        };
        while self.at_lparen()
            invariant
                self.wf(),
                self.toks() == toks,
                p0 < self.position(),
                parse_call(toks, p0) == call_rest(toks, self.position(), expr@),
            decreases toks.len() - self.position(),
        {
            let call_span = expr.span;
            let ghost p = self.position();
            self.advance();
            let args = match self.parse_arguments() {
                Ok(args) => args,
                Err(e) => {
                    return Err(e);
                },
            };
            match self.expect_rparen("expected `)` after arguments") {
                Ok(_) => {},
                Err(e) => {
                    return Err(e);
                },
            }
            let name = match expr.kind {
                ExprKind::Var(name) => name,
                _ => {
                    return Err(
                        ParserError {
                            message: text("only function names can be called"),
                            line: call_span.line,
                            column: call_span.column,
                        },
                    );
                },
            };
            expr = Expr { kind: ExprKind::Call { name, args }, span: call_span };
        }
        Ok(expr)
    }

    #[verifier::rlimit(40)]
    fn parse_arguments(&mut self) -> (res: Result<Vec<Expr>, ParserError>)
        requires
            old(self).wf(),
        ensures
            final(self).wf(),
            final(self).toks() == old(self).toks(),
            res is Ok ==> old(self).position() <= final(self).position(),
            match res {
                Ok(args) => arg_list(old(self).toks(), old(self).position()) == Ok::<
                    (Seq<SpecExpr>, int),
                    SpecError,
                >((exprs_view(args@), final(self).position())),
                Err(e) => arg_list(old(self).toks(), old(self).position()) == Err::<
                    (Seq<SpecExpr>, int),
                    SpecError,
                >(e@),
            },
        decreases old(self).toks().len() - old(self).position(), 26int,
    {
        let ghost toks = self.toks();
        let ghost p0 = self.position();
        let mut args: Vec<Expr> = Vec::new();
        assert(exprs_view(args@) =~= Seq::<SpecExpr>::empty());
        if self.at_rparen() {
            return Ok(args);
        }
        loop
            invariant
                self.wf(),
                self.toks() == toks,
                toks == old(self).toks(),
                p0 == old(self).position(),
                p0 <= self.position(),
                arg_list(toks, p0) == arg_items(toks, self.position(), exprs_view(args@)),
            decreases toks.len() - self.position(),
        {
            let ghost p = self.position();
            let ghost acc = exprs_view(args@);
            let arg = match self.parse_expression() {
                Ok(a) => a,
                Err(e) => {
                    return Err(e);
                },
            };
            let ghost p1 = self.position();
            let ghost before = args@;
            args.push(arg);
            assert(exprs_view(args@) == acc.push(arg@)) by {
                assert(args@.drop_last() =~= before);
            }
            if !self.at_comma() {
                assert(arg_items(toks, p, acc) == Ok::<(Seq<SpecExpr>, int), SpecError>(
                    (acc.push(arg@), p1),
                ));
                return Ok(args);
            }
            self.advance();
            assert(arg_items(toks, p, acc) == arg_items(toks, p1 + 1, acc.push(arg@)));
        }
    }

    fn parse_primary(&mut self) -> (res: Result<Expr, ParserError>)
        requires
            old(self).wf(),
        ensures
            final(self).wf(),
            final(self).toks() == old(self).toks(),
            res is Ok ==> old(self).position() < final(self).position(),
            expr_outcome(parse_primary(old(self).toks(), old(self).position()), res, final(self).position()),
        decreases old(self).toks().len() - old(self).position(), 3int,
    {
        let ghost toks = self.toks();
        let ghost p0 = self.position();
        match self.literal_here() {
            Some(lit) => {
                self.advance();
                Ok(lit)
            },
            None => {
                if self.at_lparen() {
                    self.advance();
                    let inner = match self.parse_expression() {
                        Ok(x) => x,
                        Err(e) => {
                            return Err(e);
                        },
                    };
                    match self.expect_rparen("expected `)` after expression") {
                        Ok(_) => {},
                        Err(e) => {
                            return Err(e);
                        },
                    }
                    Ok(inner)
                } else {
                    let e = self.error_here("expected expression");
                    self.advance();
                    Err(e)
                }
            },
        }
    }

    #[verifier::loop_isolation(false)]
    fn parse_function(&mut self) -> (res: Result<Function, ParserError>)
        requires
            old(self).wf(),
        ensures
            final(self).wf(),
            final(self).toks() == old(self).toks(),
            res is Ok ==> old(self).position() < final(self).position(),
            match res {
                Ok(f) => parse_function(old(self).toks(), old(self).position()) == Ok::<
                    (SpecFunction, int),
                    SpecError,
                >((f@, final(self).position())),
                Err(e) => parse_function(old(self).toks(), old(self).position()) == Err::<
                    (SpecFunction, int),
                    SpecError,
                >(e@),
            },
    {
        let ghost toks = self.toks();
        let ghost p0 = self.position();
        let fn_span = match self.expect_keyword_fn() {
            Ok(x) => x,
            Err(e) => {
                return Err(e);
            },
        };
        let (name, _) = match self.expect_identifier("expected function name") {
            Ok(x) => x,
            Err(e) => {
                return Err(e);
            },
        };
        match self.expect_lparen("expected `(` after function name") {
            Ok(_) => {},
            Err(e) => {
                return Err(e);
            },
        }
        let mut params: Vec<Param> = Vec::new();
        assert(params_view(params@) =~= Seq::<SpecParam>::empty());
        if !self.at_rparen() {
            let ghost p3 = self.position();
            loop
                invariant
                    self.wf(),
                    self.toks() == toks,
                    p3 <= self.position(),
                    param_items(toks, p3, Seq::empty()) == param_items(
                        toks,
                        self.position(),
                        params_view(params@),
                    ),
                decreases toks.len() - self.position(),
            {
                let ghost p = self.position();
                let (param_name, param_span) = match self.expect_identifier(
                    "expected parameter name",
                ) {
                    Ok(x) => x,
                    Err(e) => {
                        return Err(e);
                    },
                };
                match self.expect_colon("expected `:` after parameter name") {
                    Ok(_) => {},
                    Err(e) => {
                        return Err(e);
                    },
                }
                let param_ty = match self.parse_type_name() {
                    Ok(t) => t,
                    Err(e) => {
                        return Err(e);
                    },
                };
                let param = Param { name: param_name, ty: param_ty, span: param_span };
                let ghost before = params@;
                params.push(param);
                assert(params_view(params@) =~= params_view(before).push(param@));
                if self.at_comma() {
                    self.advance();
                    continue;
                }
                break;
            }
        }
        match self.expect_rparen("expected `)` after parameters") {
            Ok(_) => {},
            Err(e) => {
                return Err(e);
            },
        }
        let return_type = if self.at_arrow() {
            self.advance();
            match self.parse_type_name() {
                Ok(t) => t,
                Err(e) => {
                    return Err(e);
                },
            }
        } else {
            TypeName::Unit
        };
        let body = match self.parse_block_stmt() {
            Ok(x) => x,
            Err(e) => {
                return Err(e);
            },
        };
        Ok(Function { name, params, return_type, body, span: fn_span })
    }
    // ------------------------------------------------------------------
    // Token access
    // ------------------------------------------------------------------

    proof fn lemma_toks(&self)
        ensures
            self.toks().len() == self.tokens@.len(),
            forall|i: int| 0 <= i < self.tokens@.len() ==> #[trigger] self.toks()[i] == self.tokens@[i]@,
    {
    }

    fn at_eof(&self) -> (b: bool)
        requires
            self.wf(),
        ensures
            b == (kind_at(self.toks(), self.position()) == SpecTokenKind::Eof),
    {
        proof {
            self.lemma_toks();
        }
        matches!(self.tokens[self.pos].kind, TokenKind::Eof)
    }

    fn at_fn(&self) -> (b: bool)
        requires
            self.wf(),
        ensures
            b == (kind_at(self.toks(), self.position()) == SpecTokenKind::Fn),
    {
        proof {
            self.lemma_toks();
        }
        matches!(self.tokens[self.pos].kind, TokenKind::Fn)
    }

    fn at_lparen(&self) -> (b: bool)
        requires
            self.wf(),
        ensures
            b == (kind_at(self.toks(), self.position()) == SpecTokenKind::LParen),
    {
        proof {
            self.lemma_toks();
        }
        matches!(self.tokens[self.pos].kind, TokenKind::LParen)
    }

    fn at_rparen(&self) -> (b: bool)
        requires
            self.wf(),
        ensures
            b == (kind_at(self.toks(), self.position()) == SpecTokenKind::RParen),
    {
        proof {
            self.lemma_toks();
        }
        matches!(self.tokens[self.pos].kind, TokenKind::RParen)
    }

    fn at_lbrace(&self) -> (b: bool)
        requires
            self.wf(),
        ensures
            b == (kind_at(self.toks(), self.position()) == SpecTokenKind::LBrace),
    {
        proof {
            self.lemma_toks();
        }
        matches!(self.tokens[self.pos].kind, TokenKind::LBrace)
    }

    fn at_rbrace(&self) -> (b: bool)
        requires
            self.wf(),
        ensures
            b == (kind_at(self.toks(), self.position()) == SpecTokenKind::RBrace),
    {
        proof {
            self.lemma_toks();
        }
        matches!(self.tokens[self.pos].kind, TokenKind::RBrace)
    }

    fn at_colon(&self) -> (b: bool)
        requires
            self.wf(),
        ensures
            b == (kind_at(self.toks(), self.position()) == SpecTokenKind::Colon),
    {
        proof {
            self.lemma_toks();
        }
        matches!(self.tokens[self.pos].kind, TokenKind::Colon)
    }

    fn at_assign(&self) -> (b: bool)
        requires
            self.wf(),
        ensures
            b == (kind_at(self.toks(), self.position()) == SpecTokenKind::Assign),
    {
        proof {
            self.lemma_toks();
        }
        matches!(self.tokens[self.pos].kind, TokenKind::Assign)
    }

    fn at_semicolon(&self) -> (b: bool)
        requires
            self.wf(),
        ensures
            b == (kind_at(self.toks(), self.position()) == SpecTokenKind::Semicolon),
    {
        proof {
            self.lemma_toks();
        }
        matches!(self.tokens[self.pos].kind, TokenKind::Semicolon)
    }

    fn at_mut(&self) -> (b: bool)
        requires
            self.wf(),
        ensures
            b == (kind_at(self.toks(), self.position()) == SpecTokenKind::Mut),
    {
        proof {
            self.lemma_toks();
        }
        matches!(self.tokens[self.pos].kind, TokenKind::Mut)
    }

    fn at_else(&self) -> (b: bool)
        requires
            self.wf(),
        ensures
            b == (kind_at(self.toks(), self.position()) == SpecTokenKind::Else),
    {
        proof {
            self.lemma_toks();
        }
        matches!(self.tokens[self.pos].kind, TokenKind::Else)
    }

    fn at_if(&self) -> (b: bool)
        requires
            self.wf(),
        ensures
            b == (kind_at(self.toks(), self.position()) == SpecTokenKind::If),
    {
        proof {
            self.lemma_toks();
        }
        matches!(self.tokens[self.pos].kind, TokenKind::If)
    }

    fn at_or_or(&self) -> (b: bool)
        requires
            self.wf(),
        ensures
            b == (kind_at(self.toks(), self.position()) == SpecTokenKind::OrOr),
    {
        proof {
            self.lemma_toks();
        }
        matches!(self.tokens[self.pos].kind, TokenKind::OrOr)
    }

    fn at_and_and(&self) -> (b: bool)
        requires
            self.wf(),
        ensures
            b == (kind_at(self.toks(), self.position()) == SpecTokenKind::AndAnd),
    {
        proof {
            self.lemma_toks();
        }
        matches!(self.tokens[self.pos].kind, TokenKind::AndAnd)
    }

    fn at_comma(&self) -> (b: bool)
        requires
            self.wf(),
        ensures
            b == (kind_at(self.toks(), self.position()) == SpecTokenKind::Comma),
    {
        proof {
            self.lemma_toks();
        }
        matches!(self.tokens[self.pos].kind, TokenKind::Comma)
    }

    fn at_arrow(&self) -> (b: bool)
        requires
            self.wf(),
        ensures
            b == (kind_at(self.toks(), self.position()) == SpecTokenKind::Arrow),
    {
        proof {
            self.lemma_toks();
        }
        matches!(self.tokens[self.pos].kind, TokenKind::Arrow)
    }

    fn at_bang(&self) -> (b: bool)
        requires
            self.wf(),
        ensures
            b == (kind_at(self.toks(), self.position()) == SpecTokenKind::Bang),
    {
        proof {
            self.lemma_toks();
        }
        matches!(self.tokens[self.pos].kind, TokenKind::Bang)
    }

    fn at_minus(&self) -> (b: bool)
        requires
            self.wf(),
        ensures
            b == (kind_at(self.toks(), self.position()) == SpecTokenKind::Minus),
    {
        proof {
            self.lemma_toks();
        }
        matches!(self.tokens[self.pos].kind, TokenKind::Minus)
    }

    fn at_let(&self) -> (b: bool)
        requires
            self.wf(),
        ensures
            b == (kind_at(self.toks(), self.position()) == SpecTokenKind::Let),
    {
        proof {
            self.lemma_toks();
        }
        matches!(self.tokens[self.pos].kind, TokenKind::Let)
    }

    fn at_while(&self) -> (b: bool)
        requires
            self.wf(),
        ensures
            b == (kind_at(self.toks(), self.position()) == SpecTokenKind::While),
    {
        proof {
            self.lemma_toks();
        }
        matches!(self.tokens[self.pos].kind, TokenKind::While)
    }

    fn at_return(&self) -> (b: bool)
        requires
            self.wf(),
        ensures
            b == (kind_at(self.toks(), self.position()) == SpecTokenKind::Return),
    {
        proof {
            self.lemma_toks();
        }
        matches!(self.tokens[self.pos].kind, TokenKind::Return)
    }

    fn at_identifier(&self) -> (b: bool)
        requires
            self.wf(),
        ensures
            b == (kind_at(self.toks(), self.position()) is Identifier),
    {
        proof {
            self.lemma_toks();
        }
        matches!(self.tokens[self.pos].kind, TokenKind::Identifier(_))
    }

    fn equality_op_here(&self) -> (r: Option<BinaryOp>)
        requires
            self.wf(),
        ensures
            r == equality_op(kind_at(self.toks(), self.position())),
    {
        proof {
            self.lemma_toks();
        }
        match self.tokens[self.pos].kind {
            TokenKind::EqEq => Some(BinaryOp::Eq),
            TokenKind::NotEq => Some(BinaryOp::Ne),
            _ => None,
        }
    }

    fn comparison_op_here(&self) -> (r: Option<BinaryOp>)
        requires
            self.wf(),
        ensures
            r == comparison_op(kind_at(self.toks(), self.position())),
    {
        proof {
            self.lemma_toks();
        }
        match self.tokens[self.pos].kind {
            TokenKind::Less => Some(BinaryOp::Lt),
            TokenKind::LessEq => Some(BinaryOp::Le),
            TokenKind::Greater => Some(BinaryOp::Gt),
            TokenKind::GreaterEq => Some(BinaryOp::Ge),
            _ => None,
        }
    }

    fn term_op_here(&self) -> (r: Option<BinaryOp>)
        requires
            self.wf(),
        ensures
            r == term_op(kind_at(self.toks(), self.position())),
    {
        proof {
            self.lemma_toks();
        }
        match self.tokens[self.pos].kind {
            TokenKind::Plus => Some(BinaryOp::Add),
            TokenKind::Minus => Some(BinaryOp::Sub),
            _ => None,
        }
    }

    fn factor_op_here(&self) -> (r: Option<BinaryOp>)
        requires
            self.wf(),
        ensures
            r == factor_op(kind_at(self.toks(), self.position())),
    {
        proof {
            self.lemma_toks();
        }
        match self.tokens[self.pos].kind {
            TokenKind::Star => Some(BinaryOp::Mul),
            TokenKind::Slash => Some(BinaryOp::Div),
            _ => None,
        }
    }

    /// The literal or variable that the current token stands for, if any.
    fn literal_here(&self) -> (r: Option<Expr>)
        requires
            self.wf(),
        ensures
            match r {
                Some(e) => literal_kind(kind_at(self.toks(), self.position())) == Some(e@.kind)
                    && e@.span == span_at(self.toks(), self.position()),
                None => literal_kind(kind_at(self.toks(), self.position())) is None,
            },
    {
        proof {
            self.lemma_toks();
        }
        let span = Span::new(self.tokens[self.pos].line, self.tokens[self.pos].column);
        let kind = match &self.tokens[self.pos].kind {
            TokenKind::IntLiteral(v) => ExprKind::Int(*v),
            TokenKind::StringLiteral(s) => ExprKind::String(s.clone()),
            TokenKind::True => ExprKind::Bool(true),
            TokenKind::False => ExprKind::Bool(false),
            TokenKind::Identifier(name) => ExprKind::Var(name.clone()),
            _ => {
                return None;
            },
        };
        Some(Expr { kind, span })
    }

    fn peek_kind(&self) -> (k: &TokenKind)
        requires
            self.wf(),
        ensures
            k@ == kind_at(self.toks(), self.position()),
    {
        proof {
            self.lemma_toks();
        }
        &self.tokens[self.pos].kind
    }

    fn is_eof(&self) -> (b: bool)
        requires
            self.wf(),
        ensures
            b == (kind_at(self.toks(), self.position()) is Eof),
    {
        self.at_eof()
    }

    /// Moves past the current token unless it is `Eof`; gives its span.
    fn advance(&mut self) -> (sp: Span)
        requires
            old(self).wf(),
        ensures
            final(self).wf(),
            final(self).toks() == old(self).toks(),
            final(self).position() == adv_pos(old(self).toks(), old(self).position()),
            sp == span_at(old(self).toks(), old(self).position()),
    {
        proof {
            self.lemma_toks();
        }
        let sp = Span::new(self.tokens[self.pos].line, self.tokens[self.pos].column);
        let n = self.tokens.len();
        if !matches!(self.tokens[self.pos].kind, TokenKind::Eof) {
            proof {
                let k = choose|k: int|
                    self.pos <= k < self.toks().len() && (#[trigger] self.toks()[k]).kind is Eof;
                assert(k != self.pos);
            }
            self.pos = self.pos + 1;
        }
        sp
    }

    fn peek_is_assign(&self) -> (b: bool)
        requires
            self.wf(),
        ensures
            b == (kind_at(self.toks(), self.position() + 1) == SpecTokenKind::Assign),
    {
        proof {
            self.lemma_toks();
        }
        if self.tokens.len() - self.pos > 1 {
            matches!(self.tokens[self.pos + 1].kind, TokenKind::Assign)
        } else {
            false
        }
    }

    fn error_here(&self, message: &str) -> (e: ParserError)
        requires
            self.wf(),
        ensures
            e@ == token_error(message@, self.toks(), self.position()),
    {
        proof {
            self.lemma_toks();
        }
        ParserError {
            message: text(message),
            line: self.tokens[self.pos].line,
            column: self.tokens[self.pos].column,
        }
    }

    fn expect_keyword_fn(&mut self) -> (res: Result<Span, ParserError>)
        requires
            old(self).wf(),
        ensures
            final(self).wf(),
            final(self).toks() == old(self).toks(),
            expect_outcome(
                expect_kind(old(self).toks(), old(self).position(), SpecTokenKind::Fn, "expected `fn`"@),
                res,
                old(self).toks(),
                old(self).position(),
                final(self).position(),
            ),
    {
        if self.at_fn() {
            Ok(self.advance())
        } else {
            Err(self.error_here("expected `fn`"))
        }
    }

    fn expect_identifier(&mut self, message: &str) -> (res: Result<(String, Span), ParserError>)
        requires
            old(self).wf(),
        ensures
            final(self).wf(),
            final(self).toks() == old(self).toks(),
            match res {
                Ok((name, sp)) => expect_identifier(old(self).toks(), old(self).position(), message@)
                    == Ok::<((Seq<char>, Span), int), SpecError>(
                    ((name@, sp), final(self).position()),
                ),
                Err(e) => expect_identifier(old(self).toks(), old(self).position(), message@)
                    == Err::<((Seq<char>, Span), int), SpecError>(e@),
            },
    {
        proof {
            self.lemma_toks();
        }
        let i = self.pos;
        let name = match &self.tokens[i].kind {
            TokenKind::Identifier(name) => Some(name.clone()),
            _ => None,
        };
        match name {
            Some(name) => {
                let sp = self.advance();
                Ok((name, sp))
            },
            None => {
                let e = self.error_here(message);
                self.advance();
                Err(e)
            },
        }
    }

    fn expect_lparen(&mut self, message: &str) -> (res: Result<Span, ParserError>)
        requires
            old(self).wf(),
        ensures
            final(self).wf(),
            final(self).toks() == old(self).toks(),
            expect_outcome(
                expect_kind(old(self).toks(), old(self).position(), SpecTokenKind::LParen, message@),
                res,
                old(self).toks(),
                old(self).position(),
                final(self).position(),
            ),
    {
        if self.at_lparen() {
            Ok(self.advance())
        } else {
            Err(self.error_here(message))
        }
    }

    fn expect_rparen(&mut self, message: &str) -> (res: Result<Span, ParserError>)
        requires
            old(self).wf(),
        ensures
            final(self).wf(),
            final(self).toks() == old(self).toks(),
            expect_outcome(
                expect_kind(old(self).toks(), old(self).position(), SpecTokenKind::RParen, message@),
                res,
                old(self).toks(),
                old(self).position(),
                final(self).position(),
            ),
    {
        if self.at_rparen() {
            Ok(self.advance())
        } else {
            Err(self.error_here(message))
        }
    }

    fn expect_lbrace(&mut self, message: &str) -> (res: Result<Span, ParserError>)
        requires
            old(self).wf(),
        ensures
            final(self).wf(),
            final(self).toks() == old(self).toks(),
            expect_outcome(
                expect_kind(old(self).toks(), old(self).position(), SpecTokenKind::LBrace, message@),
                res,
                old(self).toks(),
                old(self).position(),
                final(self).position(),
            ),
    {
        if self.at_lbrace() {
            Ok(self.advance())
        } else {
            Err(self.error_here(message))
        }
    }

    fn expect_rbrace(&mut self, message: &str) -> (res: Result<Span, ParserError>)
        requires
            old(self).wf(),
        ensures
            final(self).wf(),
            final(self).toks() == old(self).toks(),
            expect_outcome(
                expect_kind(old(self).toks(), old(self).position(), SpecTokenKind::RBrace, message@),
                res,
                old(self).toks(),
                old(self).position(),
                final(self).position(),
            ),
    {
        if self.at_rbrace() {
            Ok(self.advance())
        } else {
            Err(self.error_here(message))
        }
    }

    fn expect_colon(&mut self, message: &str) -> (res: Result<Span, ParserError>)
        requires
            old(self).wf(),
        ensures
            final(self).wf(),
            final(self).toks() == old(self).toks(),
            expect_outcome(
                expect_kind(old(self).toks(), old(self).position(), SpecTokenKind::Colon, message@),
                res,
                old(self).toks(),
                old(self).position(),
                final(self).position(),
            ),
    {
        if self.at_colon() {
            Ok(self.advance())
        } else {
            Err(self.error_here(message))
        }
    }

    fn expect_assign(&mut self, message: &str) -> (res: Result<Span, ParserError>)
        requires
            old(self).wf(),
        ensures
            final(self).wf(),
            final(self).toks() == old(self).toks(),
            expect_outcome(
                expect_kind(old(self).toks(), old(self).position(), SpecTokenKind::Assign, message@),
                res,
                old(self).toks(),
                old(self).position(),
                final(self).position(),
            ),
    {
        if self.at_assign() {
            Ok(self.advance())
        } else {
            Err(self.error_here(message))
        }
    }

    fn expect_semicolon(&mut self, message: &str) -> (res: Result<Span, ParserError>)
        requires
            old(self).wf(),
        ensures
            final(self).wf(),
            final(self).toks() == old(self).toks(),
            expect_outcome(
                expect_kind(
                    old(self).toks(),
                    old(self).position(),
                    SpecTokenKind::Semicolon,
                    message@,
                ),
                res,
                old(self).toks(),
                old(self).position(),
                final(self).position(),
            ),
    {
        if self.at_semicolon() {
            Ok(self.advance())
        } else {
            Err(self.error_here(message))
        }
    }

    fn parse_type_name(&mut self) -> (res: Result<TypeName, ParserError>)
        requires
            old(self).wf(),
        ensures
            final(self).wf(),
            final(self).toks() == old(self).toks(),
            match res {
                Ok(t) => parse_type_name(old(self).toks(), old(self).position()) == Ok::<
                    (TypeName, int),
                    SpecError,
                >((t, final(self).position())),
                Err(e) => parse_type_name(old(self).toks(), old(self).position()) == Err::<
                    (TypeName, int),
                    SpecError,
                >(e@),
            },
    {
        let ghost toks = self.toks();
        let ghost p0 = self.position();
        match self.peek_kind() {
            TokenKind::TypeI64 => {
                self.advance();
                Ok(TypeName::I64)
            },
            TokenKind::TypeBool => {
                self.advance();
                Ok(TypeName::Bool)
            },
            TokenKind::TypeString => {
                self.advance();
                Ok(TypeName::String)
            },
            TokenKind::LParen => {
                let start = self.error_here("expected `()` as unit type");
                self.advance();
                match self.expect_rparen("expected `)` in unit type") {
                    Ok(_) => Ok(TypeName::Unit),
                    Err(_) => Err(start),
                }
            },
            _ => Err(self.error_here("expected type name (`i64`, `bool`, `string`, or `()`)")),
        }
    }
}

} // verus!
