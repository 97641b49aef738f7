//! The meaning of dokusy programs: a big-step semantics over the syntax
//! model, with an explicit budget.
//!
//! Variables live in a stack of scopes that function calls share: a called
//! function sees, and may assign, the variables of its callers (dynamic
//! scoping).  Every function call and every round of a `while` loop spends
//! one unit of the budget; a run that would need more ends in `OutOfFuel`.
//! An arithmetic result that does not fit an `i64` ends a run in `Overflow`.
use vstd::prelude::*;

use crate::ast::{BinaryOp, Span, SpecExpr, SpecExprKind, SpecFunction, SpecParam, SpecProgram, SpecStmt, SpecStmtKind, TypeName, UnaryOp};
use crate::text::{decimal, decimal_i64, digits_value, lemma_decimal_reads_back, SpecError};

verus! {

pub enum SpecValue {
    Int(i64),
    Bool(bool),
    Str(Seq<char>),
    Unit,
}

pub struct SpecBinding {
    pub value: SpecValue,
    pub mutable: bool,
}

/// The run-time state: the scope stack, innermost last, and what was printed.
pub struct SpecEnv {
    pub scopes: Seq<Map<Seq<char>, SpecBinding>>,
    pub output: Seq<char>,
}

/// Why an evaluation stopped.
pub enum SpecFailure {
    /// A run-time error of the language.
    Error(SpecError),
    /// An `i64` operation whose result does not fit.
    Overflow,
    /// The budget of calls and loop rounds ran out.
    OutOfFuel,
}

/// How a statement ends: normally, or by `return`.
pub enum SpecFlow {
    Continue,
    Return(SpecValue),
}

/// An evaluation result: the new state and a value, or why it stopped.
pub type Eval<T> = Result<(SpecEnv, T), SpecFailure>;

/// The functions of a program, by name.
pub type FnTable = Map<Seq<char>, SpecFunction>;

pub open spec fn runtime_error(message: Seq<char>, span: Span) -> SpecFailure {
    SpecFailure::Error(SpecError { message, line: span.line, column: span.column })
}

pub open spec fn empty_env() -> SpecEnv {
    SpecEnv { scopes: Seq::empty(), output: Seq::empty() }
}

// ----------------------------------------------------------------------
// Values
// ----------------------------------------------------------------------

/// How `print` shows a value.
pub open spec fn display(v: SpecValue) -> Seq<char> {
    match v {
        SpecValue::Int(i) => decimal_i64(i),
        SpecValue::Bool(b) => if b {
            "true"@
        } else {
            "false"@
        },
        SpecValue::Str(s) => s,
        SpecValue::Unit => "()"@,
    }
}

/// A value has the declared type.
pub open spec fn type_matches(ty: TypeName, v: SpecValue) -> bool {
    match (ty, v) {
        (TypeName::I64, SpecValue::Int(_)) => true,
        (TypeName::Bool, SpecValue::Bool(_)) => true,
        (TypeName::String, SpecValue::Str(_)) => true,
        (TypeName::Unit, SpecValue::Unit) => true,
        _ => false,
    }
}

/// The operator of an ordered comparison, as the language reports it.
pub open spec fn operator_text(op: BinaryOp) -> Seq<char> {
    match op {
        BinaryOp::Add => "+"@,
        BinaryOp::Sub => "-"@,
        BinaryOp::Mul => "*"@,
        BinaryOp::Div => "/"@,
        BinaryOp::Eq => "=="@,
        BinaryOp::Ne => "!="@,
        BinaryOp::Lt => "<"@,
        BinaryOp::Le => "<="@,
        BinaryOp::Gt => ">"@,
        BinaryOp::Ge => ">="@,
        BinaryOp::And => "&&"@,
        BinaryOp::Or => "||"@,
    }
}

/// The message when an operator that takes two `i64` gets something else.
pub open spec fn expects_i64(op: BinaryOp) -> Seq<char> {
    "`"@ + operator_text(op) + "` expects i64"@
}

/// A binary operator other than `&&` and `||`, applied to two values.
pub open spec fn apply_binary(op: BinaryOp, l: SpecValue, r: SpecValue, span: Span) -> Result<
    SpecValue,
    SpecFailure,
> {
    match op {
        BinaryOp::Add => match (l, r) {
            (SpecValue::Int(a), SpecValue::Int(b)) => match a.checked_add(b) {
                Some(c) => Ok(SpecValue::Int(c)),
                None => Err(SpecFailure::Overflow),
            },
            (SpecValue::Str(a), SpecValue::Str(b)) => Ok(SpecValue::Str(a + b)),
            _ => Err(runtime_error("`+` expects (i64, i64) or (string, string)"@, span)),
        },
        BinaryOp::Eq => Ok(SpecValue::Bool(l == r)),
        BinaryOp::Ne => Ok(SpecValue::Bool(l != r)),
        _ => match (l, r) {
            (SpecValue::Int(a), SpecValue::Int(b)) => match op {
                BinaryOp::Sub => match a.checked_sub(b) {
                    Some(c) => Ok(SpecValue::Int(c)),
                    None => Err(SpecFailure::Overflow),
                },
                BinaryOp::Mul => match a.checked_mul(b) {
                    Some(c) => Ok(SpecValue::Int(c)),
                    None => Err(SpecFailure::Overflow),
                },
                BinaryOp::Div => if b == 0 {
                    Err(runtime_error("division by zero"@, span))
                } else {
                    match a.checked_div(b) {
                        Some(c) => Ok(SpecValue::Int(c)),
                        None => Err(SpecFailure::Overflow),
                    }
                },
                BinaryOp::Lt => Ok(SpecValue::Bool(a < b)),
                BinaryOp::Le => Ok(SpecValue::Bool(a <= b)),
                BinaryOp::Gt => Ok(SpecValue::Bool(a > b)),
                _ => Ok(SpecValue::Bool(a >= b)),
            },
            _ => Err(runtime_error(expects_i64(op), span)),
        },
    }
}

// ----------------------------------------------------------------------
// Scopes
// ----------------------------------------------------------------------

pub open spec fn push_scope(env: SpecEnv) -> SpecEnv {
    SpecEnv { scopes: env.scopes.push(Map::empty()), output: env.output }
}

pub open spec fn pop_scope(env: SpecEnv) -> SpecEnv {
    if env.scopes.len() > 0 {
        SpecEnv { scopes: env.scopes.drop_last(), output: env.output }
    } else {
        env
    }
}

/// Declares `name` in the innermost scope, where it must be new.
pub open spec fn declare(env: SpecEnv, name: Seq<char>, value: SpecValue, mutable: bool, span: Span) -> Result<
    SpecEnv,
    SpecFailure,
> {
    if env.scopes.len() == 0 {
        Err(runtime_error("internal error: no scope"@, span))
    } else {
        let top = env.scopes.last();
        if top.contains_key(name) {
            Err(
                runtime_error(
                    "variable `"@ + name + "` already declared in this scope"@,
                    span,
                ),
            )
        } else {
            Ok(
                SpecEnv {
                    scopes: env.scopes.update(
                        env.scopes.len() - 1,
                        top.insert(name, SpecBinding { value, mutable }),
                    ),
                    output: env.output,
                },
            )
        }
    }
}

/// The innermost of the first `n` scopes that binds `name`.
pub open spec fn innermost(scopes: Seq<Map<Seq<char>, SpecBinding>>, name: Seq<char>, n: int) -> Option<int>
    decreases n,
{
    if n <= 0 {
        None
    } else if scopes[n - 1].contains_key(name) {
        Some(n - 1)
    } else {
        innermost(scopes, name, n - 1)
    }
}

pub open spec fn find_scope(env: SpecEnv, name: Seq<char>) -> Option<int> {
    innermost(env.scopes, name, env.scopes.len() as int)
}

pub open spec fn lookup(env: SpecEnv, name: Seq<char>, span: Span) -> Result<SpecValue, SpecFailure> {
    match find_scope(env, name) {
        Some(i) => Ok(env.scopes[i][name].value),
        None => Err(runtime_error("undefined variable `"@ + name + "`"@, span)),
    }
}

/// Gives the innermost binding of `name` a new value; it must be mutable.
pub open spec fn assign(env: SpecEnv, name: Seq<char>, value: SpecValue, span: Span) -> Result<
    SpecEnv,
    SpecFailure,
> {
    match find_scope(env, name) {
        Some(i) => {
            if !env.scopes[i][name].mutable {
                Err(runtime_error("cannot assign to immutable variable `"@ + name + "`"@, span))
            } else {
                Ok(
                    SpecEnv {
                        scopes: env.scopes.update(
                            i,
                            env.scopes[i].insert(name, SpecBinding { value, mutable: true }),
                        ),
                        output: env.output,
                    },
                )
            }
        },
        None => Err(runtime_error("undefined variable `"@ + name + "`"@, span)),
    }
}

/// A variable declared without `mut` is never changed: assigning to it
/// fails with an error that names it.
pub proof fn lemma_immutable_binding(env: SpecEnv, name: Seq<char>, value: SpecValue, span: Span)
    requires
        find_scope(env, name) matches Some(i) && !env.scopes[i][name].mutable,
    ensures
        assign(env, name, value, span) == Err::<SpecEnv, SpecFailure>(
            runtime_error("cannot assign to immutable variable `"@ + name + "`"@, span),
        ),
{
}

/// Declares the parameters, immutable, with the argument values, first to last.
pub open spec fn bind_params(env: SpecEnv, params: Seq<SpecParam>, args: Seq<SpecValue>) -> Result<
    SpecEnv,
    SpecFailure,
>
    decreases params.len(),
{
    if params.len() == 0 || args.len() == 0 {
        Ok(env)
    } else {
        match declare(env, params[0].name, args[0], false, params[0].span) {
            Err(f) => Err(f),
            Ok(env1) => bind_params(
                env1,
                params.subrange(1, params.len() as int),
                args.subrange(1, args.len() as int),
            ),
        }
    }
}

/// The built-in `print`: one argument, shown on a line of its own.
pub open spec fn print_builtin(env: SpecEnv, args: Seq<SpecValue>, span: Span) -> Eval<SpecValue> {
    if args.len() != 1 {
        Err(runtime_error("`print` expects exactly 1 argument"@, span))
    } else {
        Ok(
            (
                SpecEnv { scopes: env.scopes, output: env.output + display(args[0]) + "\n"@ },
                SpecValue::Unit,
            ),
        )
    }
}

pub open spec fn arity_message(name: Seq<char>, expected: nat, got: nat) -> Seq<char> {
    "function `"@ + name + "` expects "@ + decimal(expected) + " args but got "@ + decimal(got)
}

// ----------------------------------------------------------------------
// Evaluation
// ----------------------------------------------------------------------

pub open spec fn eval_expr(fns: FnTable, fuel: nat, env: SpecEnv, e: SpecExpr) -> Eval<SpecValue>
    decreases fuel, 1int, e, 2int,
{
    match e.kind {
        SpecExprKind::Int(v) => Ok((env, SpecValue::Int(v))),
        SpecExprKind::Bool(b) => Ok((env, SpecValue::Bool(b))),
        SpecExprKind::Str(s) => Ok((env, SpecValue::Str(s))),
        SpecExprKind::Var(name) => match lookup(env, name, e.span) {
            Ok(v) => Ok((env, v)),
            Err(f) => Err(f),
        },
        SpecExprKind::Unary { op, expr } => match eval_expr(fns, fuel, env, *expr) {
            Err(f) => Err(f),
            Ok((env1, v)) => match op {
                UnaryOp::Not => match v {
                    SpecValue::Bool(b) => Ok((env1, SpecValue::Bool(!b))),
                    _ => Err(runtime_error("`!` expects bool"@, e.span)),
                },
                UnaryOp::Neg => match v {
                    SpecValue::Int(i) => if i == i64::MIN {
                        Err(SpecFailure::Overflow)
                    } else {
                        Ok((env1, SpecValue::Int(-i as i64)))
                    },
                    _ => Err(runtime_error("unary `-` expects i64"@, e.span)),
                },
            },
        },
        SpecExprKind::Binary { .. } => eval_binary(fns, fuel, env, e),
        SpecExprKind::Call { name, args } => match eval_args(fns, fuel, env, args, Seq::empty()) {
            Err(f) => Err(f),
            Ok((env1, vals)) => call_named(fns, fuel, env1, name, vals, e.span),
        },
    }
}

/// A binary expression: `&&` and `||` evaluate their right operand only when
/// the left one does not decide; the other operators evaluate both, left
/// first.  (Only applied to binary expressions; on anything else its value
/// is of no use.)
pub open spec fn eval_binary(fns: FnTable, fuel: nat, env: SpecEnv, e: SpecExpr) -> Eval<SpecValue>
    decreases fuel, 1int, e, 1int,
{
    match e.kind {
        SpecExprKind::Binary { left, op, right } => match eval_expr(fns, fuel, env, *left) {
            Err(f) => Err(f),
            Ok((env1, lv)) => {
                if op == BinaryOp::And || op == BinaryOp::Or {
                    let message = if op == BinaryOp::And {
                        "`&&` expects bool operands"@
                    } else {
                        "`||` expects bool operands"@
                    };
                    match lv {
                        SpecValue::Bool(lb) => {
                            if lb == (op == BinaryOp::Or) {
                                Ok((env1, SpecValue::Bool(lb)))
                            } else {
                                match eval_expr(fns, fuel, env1, *right) {
                                    Err(f) => Err(f),
                                    Ok((env2, rv)) => match rv {
                                        SpecValue::Bool(rb) => Ok((env2, SpecValue::Bool(rb))),
                                        _ => Err(runtime_error(message, e.span)),
                                    },
                                }
                            }
                        },
                        _ => Err(runtime_error(message, e.span)),
                    }
                } else {
                    match eval_expr(fns, fuel, env1, *right) {
                        Err(f) => Err(f),
                        Ok((env2, rv)) => match apply_binary(op, lv, rv, e.span) {
                            Err(f) => Err(f),
                            Ok(v) => Ok((env2, v)),
                        },
                    }
                }
            },
        },
        _ => Err(SpecFailure::OutOfFuel),
    }
}

/// The arguments, left to right, `acc` holding the values found so far.
pub open spec fn eval_args(
    fns: FnTable,
    fuel: nat,
    env: SpecEnv,
    args: Seq<SpecExpr>,
    acc: Seq<SpecValue>,
) -> Eval<Seq<SpecValue>>
    decreases fuel, 1int, args, 0int,
{
    if args.len() == 0 {
        Ok((env, acc))
    } else {
        match eval_expr(fns, fuel, env, args[0]) {
            Err(f) => Err(f),
            Ok((env1, v)) => eval_args(fns, fuel, env1, args.subrange(1, args.len() as int), acc.push(v)),
        }
    }
}

/// A call by name: `print`, or a function of the program, whose body runs
/// in a new scope with one unit less of the budget.
pub open spec fn call_named(
    fns: FnTable,
    fuel: nat,
    env: SpecEnv,
    name: Seq<char>,
    args: Seq<SpecValue>,
    span: Span,
) -> Eval<SpecValue>
    decreases fuel, 0int, name, 0int,
{
    if name == "print"@ {
        print_builtin(env, args, span)
    } else if !fns.contains_key(name) {
        Err(runtime_error("undefined function `"@ + name + "`"@, span))
    } else {
        let func = fns[name];
        if args.len() != func.params.len() {
            Err(runtime_error(arity_message(name, func.params.len(), args.len()), span))
        } else if fuel == 0 {
            Err(SpecFailure::OutOfFuel)
        } else {
            match bind_params(push_scope(env), func.params, args) {
                Err(f) => Err(f),
                Ok(env1) => match exec_stmt(fns, (fuel - 1) as nat, env1, func.body) {
                    Err(f) => Err(f),
                    Ok((env2, flow)) => {
                        let env3 = pop_scope(env2);
                        match flow {
                            SpecFlow::Return(v) => {
                                if type_matches(func.return_type, v) {
                                    Ok((env3, v))
                                } else {
                                    Err(
                                        runtime_error(
                                            "function `"@ + name + "` returned wrong type"@,
                                            span,
                                        ),
                                    )
                                }
                            },
                            SpecFlow::Continue => Err(
                                runtime_error(
                                    "function `"@ + name + "` ended without `return`"@,
                                    func.span,
                                ),
                            ),
                        }
                    },
                },
            }
        }
    }
}

pub open spec fn exec_stmt(fns: FnTable, fuel: nat, env: SpecEnv, s: SpecStmt) -> Eval<SpecFlow>
    decreases fuel, 2int, s, 1int,
{
    match s.kind {
        SpecStmtKind::Let { name, mutable, value } => match eval_expr(fns, fuel, env, value) {
            Err(f) => Err(f),
            Ok((env1, v)) => match declare(env1, name, v, mutable, s.span) {
                Err(f) => Err(f),
                Ok(env2) => Ok((env2, SpecFlow::Continue)),
            },
        },
        SpecStmtKind::Assign { name, value } => match eval_expr(fns, fuel, env, value) {
            Err(f) => Err(f),
            Ok((env1, v)) => match assign(env1, name, v, s.span) {
                Err(f) => Err(f),
                Ok(env2) => Ok((env2, SpecFlow::Continue)),
            },
        },
        SpecStmtKind::ExprStmt(e) => match eval_expr(fns, fuel, env, e) {
            Err(f) => Err(f),
            Ok((env1, _)) => Ok((env1, SpecFlow::Continue)),
        },
        SpecStmtKind::Block(stmts) => match exec_block(fns, fuel, push_scope(env), stmts) {
            Err(f) => Err(f),
            Ok((env1, flow)) => Ok((pop_scope(env1), flow)),
        },
        SpecStmtKind::If { cond, then_branch, else_branch } => match eval_expr(fns, fuel, env, cond) {
            Err(f) => Err(f),
            Ok((env1, v)) => match v {
                SpecValue::Bool(b) => {
                    if b {
                        exec_stmt(fns, fuel, env1, *then_branch)
                    } else {
                        match else_branch {
                            Some(els) => exec_stmt(fns, fuel, env1, *els),
                            None => Ok((env1, SpecFlow::Continue)),
                        }
                    }
                },
                _ => Err(runtime_error("if condition must be bool"@, cond.span)),
            },
        },
        SpecStmtKind::While { cond, body } => {
            if fuel == 0 {
                Err(SpecFailure::OutOfFuel)
            } else {
                match eval_expr(fns, fuel, env, cond) {
                    Err(f) => Err(f),
                    Ok((env1, v)) => match v {
                        SpecValue::Bool(b) => {
                            if !b {
                                Ok((env1, SpecFlow::Continue))
                            } else {
                                match exec_stmt(fns, fuel, env1, *body) {
                                    Err(f) => Err(f),
                                    Ok((env2, SpecFlow::Return(v))) => Ok(
                                        (env2, SpecFlow::Return(v)),
                                    ),
                                    Ok((env2, SpecFlow::Continue)) => exec_stmt(
                                        fns,
                                        (fuel - 1) as nat,
                                        env2,
                                        s,
                                    ),
                                }
                            }
                        },
                        _ => Err(runtime_error("while condition must be bool"@, cond.span)),
                    },
                }
            }
        },
        SpecStmtKind::Return(e) => match eval_expr(fns, fuel, env, e) {
            Err(f) => Err(f),
            Ok((env1, v)) => Ok((env1, SpecFlow::Return(v))),
        },
    }
}

/// The statements of a block in order, up to the first `return`.
pub open spec fn exec_block(fns: FnTable, fuel: nat, env: SpecEnv, stmts: Seq<SpecStmt>) -> Eval<
    SpecFlow,
>
    decreases fuel, 2int, stmts, 0int,
{
    if stmts.len() == 0 {
        Ok((env, SpecFlow::Continue))
    } else {
        match exec_stmt(fns, fuel, env, stmts[0]) {
            Err(f) => Err(f),
            Ok((env1, SpecFlow::Return(v))) => Ok((env1, SpecFlow::Return(v))),
            Ok((env1, SpecFlow::Continue)) => exec_block(
                fns,
                fuel,
                env1,
                stmts.subrange(1, stmts.len() as int),
            ),
        }
    }
}

// ----------------------------------------------------------------------
// Programs
// ----------------------------------------------------------------------

/// Adds the functions to `table` in order; the first function whose name is
/// already taken is an error.
pub open spec fn register_from(table: FnTable, fs: Seq<SpecFunction>) -> Result<FnTable, SpecError>
    decreases fs.len(),
{
    if fs.len() == 0 {
        Ok(table)
    } else {
        let f = fs[0];
        if table.contains_key(f.name) {
            Err(
                SpecError {
                    message: "duplicate function `"@ + f.name + "`"@,
                    line: f.span.line,
                    column: f.span.column,
                },
            )
        } else {
            register_from(table.insert(f.name, f), fs.subrange(1, fs.len() as int))
        }
    }
}

/// The function table of a program.
pub open spec fn register(fs: Seq<SpecFunction>) -> Result<FnTable, SpecError> {
    register_from(Map::empty(), fs)
}

/// The budget that a run is given: one unit per call and per loop round.
pub open spec fn budget() -> nat {
    u64::MAX as nat
}

/// Running a program with a budget: `main`'s result, which must be an `i64`,
/// and everything printed.
pub open spec fn run_spec(p: SpecProgram, fuel: nat) -> Result<(i64, Seq<char>), SpecFailure> {
    match register(p.functions) {
        Err(e) => Err(SpecFailure::Error(e)),
        Ok(fns) => {
            if !fns.contains_key("main"@) {
                Err(runtime_error("function `main` is not defined"@, Span { line: 1, column: 1 }))
            } else {
                let main_span = fns["main"@].span;
                match call_named(fns, fuel, empty_env(), "main"@, Seq::empty(), main_span) {
                    Err(f) => Err(f),
                    Ok((env, v)) => match v {
                        SpecValue::Int(code) => Ok((code, env.output)),
                        _ => Err(runtime_error("`main` must return i64"@, main_span)),
                    },
                }
            }
        },
    }
}

// ----------------------------------------------------------------------
// The budget
// ----------------------------------------------------------------------

/// The evaluation ran out of budget.
pub open spec fn ran_out<T>(r: Eval<T>) -> bool {
    r matches Err(SpecFailure::OutOfFuel)
}

/// An expression that evaluates within budget `f1` evaluates the same way
/// with any larger budget.
pub proof fn lemma_expr_budget(fns: FnTable, f1: nat, f2: nat, env: SpecEnv, e: SpecExpr)
    requires
        f1 <= f2,
        !ran_out(eval_expr(fns, f1, env, e)),
    ensures
        eval_expr(fns, f2, env, e) == eval_expr(fns, f1, env, e),
    decreases f1, 1int, e, 2int,
{
    match e.kind {
        SpecExprKind::Unary { op, expr } => {
            if !ran_out(eval_expr(fns, f1, env, *expr)) {
                lemma_expr_budget(fns, f1, f2, env, *expr);
            }
        },
        SpecExprKind::Binary { .. } => {
            lemma_binary_budget(fns, f1, f2, env, e);
        },
        SpecExprKind::Call { name, args } => {
            if !ran_out(eval_args(fns, f1, env, args, Seq::empty())) {
                lemma_args_budget(fns, f1, f2, env, args, Seq::empty());
                match eval_args(fns, f1, env, args, Seq::empty()) {
                    Ok((env1, vals)) => {
                        lemma_call_budget(fns, f1, f2, env1, name, vals, e.span);
                    },
                    Err(_) => {},
                }
            }
        },
        _ => {},
    }
}

pub proof fn lemma_binary_budget(fns: FnTable, f1: nat, f2: nat, env: SpecEnv, e: SpecExpr)
    requires
        f1 <= f2,
        !ran_out(eval_binary(fns, f1, env, e)),
    ensures
        eval_binary(fns, f2, env, e) == eval_binary(fns, f1, env, e),
    decreases f1, 1int, e, 1int,
{
    match e.kind {
        SpecExprKind::Binary { left, op, right } => {
            if !ran_out(eval_expr(fns, f1, env, *left)) {
                lemma_expr_budget(fns, f1, f2, env, *left);
                match eval_expr(fns, f1, env, *left) {
                    Ok((env1, _)) => {
                        if !ran_out(eval_expr(fns, f1, env1, *right)) {
                            lemma_expr_budget(fns, f1, f2, env1, *right);
                        }
                    },
                    Err(_) => {},
                }
            }
        },
        _ => {},
    }
}

pub proof fn lemma_args_budget(
    fns: FnTable,
    f1: nat,
    f2: nat,
    env: SpecEnv,
    args: Seq<SpecExpr>,
    acc: Seq<SpecValue>,
)
    requires
        f1 <= f2,
        !ran_out(eval_args(fns, f1, env, args, acc)),
    ensures
        eval_args(fns, f2, env, args, acc) == eval_args(fns, f1, env, args, acc),
    decreases f1, 1int, args, 0int,
{
    if args.len() > 0 {
        if !ran_out(eval_expr(fns, f1, env, args[0])) {
            lemma_expr_budget(fns, f1, f2, env, args[0]);
            match eval_expr(fns, f1, env, args[0]) {
                Ok((env1, v)) => {
                    lemma_args_budget(
                        fns,
                        f1,
                        f2,
                        env1,
                        args.subrange(1, args.len() as int),
                        acc.push(v),
                    );
                },
                Err(_) => {},
            }
        }
    }
}

pub proof fn lemma_call_budget(
    fns: FnTable,
    f1: nat,
    f2: nat,
    env: SpecEnv,
    name: Seq<char>,
    args: Seq<SpecValue>,
    span: Span,
)
    requires
        f1 <= f2,
        !ran_out(call_named(fns, f1, env, name, args, span)),
    ensures
        call_named(fns, f2, env, name, args, span) == call_named(fns, f1, env, name, args, span),
    decreases f1, 0int, name, 0int,
{
    if name != "print"@ && fns.contains_key(name) && args.len() == fns[name].params.len() {
        let func = fns[name];
        match bind_params(push_scope(env), func.params, args) {
            Ok(env1) => {
                if !ran_out(exec_stmt(fns, (f1 - 1) as nat, env1, func.body)) {
                    lemma_stmt_budget(fns, (f1 - 1) as nat, (f2 - 1) as nat, env1, func.body);
                }
            },
            Err(_) => {},
        }
    }
}

pub proof fn lemma_stmt_budget(fns: FnTable, f1: nat, f2: nat, env: SpecEnv, s: SpecStmt)
    requires
        f1 <= f2,
        !ran_out(exec_stmt(fns, f1, env, s)),
    ensures
        exec_stmt(fns, f2, env, s) == exec_stmt(fns, f1, env, s),
    decreases f1, 2int, s, 1int,
{
    match s.kind {
        SpecStmtKind::Let { value, .. } => {
            lemma_expr_budget(fns, f1, f2, env, value);
        },
        SpecStmtKind::Assign { value, .. } => {
            lemma_expr_budget(fns, f1, f2, env, value);
        },
        SpecStmtKind::ExprStmt(e) => {
            lemma_expr_budget(fns, f1, f2, env, e);
        },
        SpecStmtKind::Return(e) => {
            lemma_expr_budget(fns, f1, f2, env, e);
        },
        SpecStmtKind::Block(stmts) => {
            lemma_block_budget(fns, f1, f2, push_scope(env), stmts);
        },
        SpecStmtKind::If { cond, then_branch, else_branch } => {
            if !ran_out(eval_expr(fns, f1, env, cond)) {
                lemma_expr_budget(fns, f1, f2, env, cond);
                match eval_expr(fns, f1, env, cond) {
                    Ok((env1, SpecValue::Bool(b))) => {
                        if b {
                            lemma_stmt_budget(fns, f1, f2, env1, *then_branch);
                        } else {
                            match else_branch {
                                Some(els) => {
                                    lemma_stmt_budget(fns, f1, f2, env1, *els);
                                },
                                None => {},
                            }
                        }
                    },
                    _ => {},
                }
            }
        },
        SpecStmtKind::While { cond, body } => {
            if f1 > 0 && !ran_out(eval_expr(fns, f1, env, cond)) {
                lemma_expr_budget(fns, f1, f2, env, cond);
                match eval_expr(fns, f1, env, cond) {
                    Ok((env1, SpecValue::Bool(true))) => {
                        if !ran_out(exec_stmt(fns, f1, env1, *body)) {
                            lemma_stmt_budget(fns, f1, f2, env1, *body);
                            match exec_stmt(fns, f1, env1, *body) {
                                Ok((env2, SpecFlow::Continue)) => {
                                    lemma_stmt_budget(
                                        fns,
                                        (f1 - 1) as nat,
                                        (f2 - 1) as nat,
                                        env2,
                                        s,
                                    );
                                },
                                _ => {},
                            }
                        }
                    },
                    _ => {},
                }
            }
        },
    }
}

pub proof fn lemma_block_budget(fns: FnTable, f1: nat, f2: nat, env: SpecEnv, stmts: Seq<SpecStmt>)
    requires
        f1 <= f2,
        !ran_out(exec_block(fns, f1, env, stmts)),
    ensures
        exec_block(fns, f2, env, stmts) == exec_block(fns, f1, env, stmts),
    decreases f1, 2int, stmts, 0int,
{
    if stmts.len() > 0 {
        if !ran_out(exec_stmt(fns, f1, env, stmts[0])) {
            lemma_stmt_budget(fns, f1, f2, env, stmts[0]);
            match exec_stmt(fns, f1, env, stmts[0]) {
                Ok((env1, SpecFlow::Continue)) => {
                    lemma_block_budget(fns, f1, f2, env1, stmts.subrange(1, stmts.len() as int));
                },
                _ => {},
            }
        }
    }
}

/// A run that finishes within a budget (with a result, an error or an
/// overflow) finishes the same way with any larger budget: the budget only
/// decides how long a run may go on, never what it computes.
pub proof fn lemma_run_budget(p: SpecProgram, f1: nat, f2: nat)
    requires
        f1 <= f2,
        !(run_spec(p, f1) matches Err(SpecFailure::OutOfFuel)),
    ensures
        run_spec(p, f2) == run_spec(p, f1),
{
    match register(p.functions) {
        Ok(fns) => {
            if fns.contains_key("main"@) {
                lemma_call_budget(fns, f1, f2, empty_env(), "main"@, Seq::empty(), fns["main"@].span);
            }
        },
        Err(_) => {},
    }
}

// ----------------------------------------------------------------------
// Scopes and output across an evaluation
// ----------------------------------------------------------------------

/// `after` has as many scopes as `before`, and its output continues
/// `before`'s.
pub open spec fn keeps_frame(before: SpecEnv, after: SpecEnv) -> bool {
    &&& after.scopes.len() == before.scopes.len()
    &&& before.output.len() <= after.output.len()
    &&& after.output.take(before.output.len() as int) == before.output
}

proof fn lemma_frame_trans(a: SpecEnv, b: SpecEnv, c: SpecEnv)
    requires
        keeps_frame(a, b),
        keeps_frame(b, c),
    ensures
        keeps_frame(a, c),
{
    assert(c.output.take(a.output.len() as int) =~= c.output.take(b.output.len() as int).take(
        a.output.len() as int,
    ));
}

proof fn lemma_frame_refl(a: SpecEnv)
    ensures
        keeps_frame(a, a),
{
    assert(a.output.take(a.output.len() as int) =~= a.output);
}

proof fn lemma_bind_params_frame(env: SpecEnv, params: Seq<SpecParam>, args: Seq<SpecValue>)
    ensures
        bind_params(env, params, args) matches Ok(env1) ==> env1.scopes.len() == env.scopes.len()
            && env1.output == env.output,
    decreases params.len(),
{
    if params.len() > 0 && args.len() > 0 {
        match declare(env, params[0].name, args[0], false, params[0].span) {
            Ok(env1) => {
                lemma_bind_params_frame(
                    env1,
                    params.subrange(1, params.len() as int),
                    args.subrange(1, args.len() as int),
                );
            },
            Err(_) => {},
        }
    }
}

/// The scope that `innermost` finds is one of the first `n`, and binds the name.
pub proof fn lemma_innermost_bounds(scopes: Seq<Map<Seq<char>, SpecBinding>>, name: Seq<char>, n: int)
    ensures
        innermost(scopes, name, n) matches Some(i) ==> 0 <= i < n && scopes[i].contains_key(name),
    decreases n,
{
    if n > 0 {
        lemma_innermost_bounds(scopes, name, n - 1);
    }
}

/// Evaluating an expression leaves the scope stack as deep as it was and
/// only appends to the output.
pub proof fn lemma_expr_frame(fns: FnTable, fuel: nat, env: SpecEnv, e: SpecExpr)
    ensures
        eval_expr(fns, fuel, env, e) matches Ok((env1, _)) ==> keeps_frame(env, env1),
    decreases fuel, 1int, e, 2int,
{
    lemma_frame_refl(env);
    match e.kind {
        SpecExprKind::Unary { op, expr } => {
            lemma_expr_frame(fns, fuel, env, *expr);
        },
        SpecExprKind::Binary { .. } => {
            lemma_binary_frame(fns, fuel, env, e);
        },
        SpecExprKind::Call { name, args } => {
            lemma_args_frame(fns, fuel, env, args, Seq::empty());
            match eval_args(fns, fuel, env, args, Seq::empty()) {
                Ok((env1, vals)) => {
                    lemma_call_frame(fns, fuel, env1, name, vals, e.span);
                    match call_named(fns, fuel, env1, name, vals, e.span) {
                        Ok((env2, _)) => lemma_frame_trans(env, env1, env2),
                        Err(_) => {},
                    }
                },
                Err(_) => {},
            }
        },
        _ => {},
    }
}

pub proof fn lemma_binary_frame(fns: FnTable, fuel: nat, env: SpecEnv, e: SpecExpr)
    ensures
        eval_binary(fns, fuel, env, e) matches Ok((env1, _)) ==> keeps_frame(env, env1),
    decreases fuel, 1int, e, 1int,
{
    match e.kind {
        SpecExprKind::Binary { left, op, right } => {
            lemma_expr_frame(fns, fuel, env, *left);
            match eval_expr(fns, fuel, env, *left) {
                Ok((env1, _)) => {
                    lemma_expr_frame(fns, fuel, env1, *right);
                    match eval_expr(fns, fuel, env1, *right) {
                        Ok((env2, _)) => lemma_frame_trans(env, env1, env2),
                        Err(_) => {},
                    }
                },
                Err(_) => {},
            }
        },
        _ => {},
    }
}

pub proof fn lemma_args_frame(
    fns: FnTable,
    fuel: nat,
    env: SpecEnv,
    args: Seq<SpecExpr>,
    acc: Seq<SpecValue>,
)
    ensures
        eval_args(fns, fuel, env, args, acc) matches Ok((env1, _)) ==> keeps_frame(env, env1),
    decreases fuel, 1int, args, 0int,
{
    lemma_frame_refl(env);
    if args.len() > 0 {
        lemma_expr_frame(fns, fuel, env, args[0]);
        match eval_expr(fns, fuel, env, args[0]) {
            Ok((env1, v)) => {
                let rest = args.subrange(1, args.len() as int);
                lemma_args_frame(fns, fuel, env1, rest, acc.push(v));
                match eval_args(fns, fuel, env1, rest, acc.push(v)) {
                    Ok((env2, _)) => lemma_frame_trans(env, env1, env2),
                    Err(_) => {},
                }
            },
            Err(_) => {},
        }
    }
}

/// A call returns to its caller with the caller's scope stack as deep as it
/// was, and only appends to the output.
pub proof fn lemma_call_frame(
    fns: FnTable,
    fuel: nat,
    env: SpecEnv,
    name: Seq<char>,
    args: Seq<SpecValue>,
    span: Span,
)
    ensures
        call_named(fns, fuel, env, name, args, span) matches Ok((env1, _)) ==> keeps_frame(
            env,
            env1,
        ),
    decreases fuel, 0int, name, 0int,
{
    if name == "print"@ {
        if args.len() == 1 {
            let out = env.output + display(args[0]) + "\n"@;
            assert(out.take(env.output.len() as int) =~= env.output);
        }
    } else if fns.contains_key(name) && args.len() == fns[name].params.len() && fuel > 0 {
        let func = fns[name];
        lemma_bind_params_frame(push_scope(env), func.params, args);
        match bind_params(push_scope(env), func.params, args) {
            Ok(env1) => {
                lemma_stmt_frame(fns, (fuel - 1) as nat, env1, func.body);
                match exec_stmt(fns, (fuel - 1) as nat, env1, func.body) {
                    Ok((env2, _)) => {
                        let env3 = pop_scope(env2);
                        assert(env3.output.take(env.output.len() as int) =~= env.output);
                    },
                    Err(_) => {},
                }
            },
            Err(_) => {},
        }
    }
}

/// Executing a statement leaves the scope stack as deep as it was (a block
/// pops the scope it pushed) and only appends to the output.
pub proof fn lemma_stmt_frame(fns: FnTable, fuel: nat, env: SpecEnv, s: SpecStmt)
    ensures
        exec_stmt(fns, fuel, env, s) matches Ok((env1, _)) ==> keeps_frame(env, env1),
    decreases fuel, 2int, s, 1int,
{
    lemma_frame_refl(env);
    match s.kind {
        SpecStmtKind::Let { value, .. } => {
            lemma_expr_frame(fns, fuel, env, value);
        },
        SpecStmtKind::Assign { name, value } => {
            lemma_expr_frame(fns, fuel, env, value);
            match eval_expr(fns, fuel, env, value) {
                Ok((env1, _)) => {
                    lemma_innermost_bounds(env1.scopes, name, env1.scopes.len() as int);
                },
                Err(_) => {},
            }
        },
        SpecStmtKind::ExprStmt(e) => {
            lemma_expr_frame(fns, fuel, env, e);
        },
        SpecStmtKind::Return(e) => {
            lemma_expr_frame(fns, fuel, env, e);
        },
        SpecStmtKind::Block(stmts) => {
            let env0 = push_scope(env);
            lemma_block_frame(fns, fuel, env0, stmts);
            match exec_block(fns, fuel, env0, stmts) {
                Ok((env1, _)) => {
                    let env2 = pop_scope(env1);
                    assert(env2.output.take(env.output.len() as int) =~= env.output);
                },
                Err(_) => {},
            }
        },
        SpecStmtKind::If { cond, then_branch, else_branch } => {
            lemma_expr_frame(fns, fuel, env, cond);
            match eval_expr(fns, fuel, env, cond) {
                Ok((env1, SpecValue::Bool(b))) => {
                    if b {
                        lemma_stmt_frame(fns, fuel, env1, *then_branch);
                        match exec_stmt(fns, fuel, env1, *then_branch) {
                            Ok((env2, _)) => lemma_frame_trans(env, env1, env2),
                            Err(_) => {},
                        }
                    } else {
                        match else_branch {
                            Some(els) => {
                                lemma_stmt_frame(fns, fuel, env1, *els);
                                match exec_stmt(fns, fuel, env1, *els) {
                                    Ok((env2, _)) => lemma_frame_trans(env, env1, env2),
                                    Err(_) => {},
                                }
                            },
                            None => {},
                        }
                    }
                },
                _ => {},
            }
        },
        SpecStmtKind::While { cond, body } => {
            if fuel > 0 {
                lemma_expr_frame(fns, fuel, env, cond);
                match eval_expr(fns, fuel, env, cond) {
                    Ok((env1, SpecValue::Bool(true))) => {
                        lemma_stmt_frame(fns, fuel, env1, *body);
                        match exec_stmt(fns, fuel, env1, *body) {
                            Ok((env2, flow)) => {
                                lemma_frame_trans(env, env1, env2);
                                if flow is Continue {
                                    lemma_stmt_frame(fns, (fuel - 1) as nat, env2, s);
                                    match exec_stmt(fns, (fuel - 1) as nat, env2, s) {
                                        Ok((env3, _)) => lemma_frame_trans(env, env2, env3),
                                        Err(_) => {},
                                    }
                                }
                            },
                            Err(_) => {},
                        }
                    },
                    _ => {},
                }
            }
        },
    }
}

pub proof fn lemma_block_frame(fns: FnTable, fuel: nat, env: SpecEnv, stmts: Seq<SpecStmt>)
    ensures
        exec_block(fns, fuel, env, stmts) matches Ok((env1, _)) ==> keeps_frame(env, env1),
    decreases fuel, 2int, stmts, 0int,
{
    lemma_frame_refl(env);
    if stmts.len() > 0 {
        lemma_stmt_frame(fns, fuel, env, stmts[0]);
        match exec_stmt(fns, fuel, env, stmts[0]) {
            Ok((env1, flow)) => {
                if flow is Continue {
                    let rest = stmts.subrange(1, stmts.len() as int);
                    lemma_block_frame(fns, fuel, env1, rest);
                    match exec_block(fns, fuel, env1, rest) {
                        Ok((env2, _)) => lemma_frame_trans(env, env1, env2),
                        Err(_) => {},
                    }
                }
            },
            Err(_) => {},
        }
    }
}


// ----------------------------------------------------------------------
// Operators
// ----------------------------------------------------------------------

/// `&&` and `||` short-circuit: when the left operand already decides (`false`
/// for `&&`, `true` for `||`), that is the result, in the state the left
/// operand left, and the right operand is not evaluated at all (its prints,
/// errors and type have no effect).
pub proof fn lemma_short_circuit(
    fns: FnTable,
    fuel: nat,
    env: SpecEnv,
    e: SpecExpr,
    env1: SpecEnv,
    b: bool,
)
    requires
        e.kind matches SpecExprKind::Binary { left, op, right } && ((op == BinaryOp::And && !b)
            || (op == BinaryOp::Or && b)) && eval_expr(fns, fuel, env, *left) == Ok::<
            (SpecEnv, SpecValue),
            SpecFailure,
        >((env1, SpecValue::Bool(b))),
    ensures
        eval_expr(fns, fuel, env, e) == Ok::<(SpecEnv, SpecValue), SpecFailure>(
            (env1, SpecValue::Bool(b)),
        ),
{
    assert(eval_expr(fns, fuel, env, e) == eval_binary(fns, fuel, env, e));
}

/// `==` and `!=` never fail on their operands' types: they compare any two
/// values, and values of different kinds are unequal.
pub proof fn lemma_equality_total(
    fns: FnTable,
    fuel: nat,
    env: SpecEnv,
    e: SpecExpr,
    op: BinaryOp,
    env1: SpecEnv,
    a: SpecValue,
    env2: SpecEnv,
    b: SpecValue,
)
    requires
        e.kind matches SpecExprKind::Binary { left, op: o, right } && o == op && (op
            == BinaryOp::Eq || op == BinaryOp::Ne) && eval_expr(fns, fuel, env, *left) == Ok::<
            (SpecEnv, SpecValue),
            SpecFailure,
        >((env1, a)) && eval_expr(fns, fuel, env1, *right) == Ok::<
            (SpecEnv, SpecValue),
            SpecFailure,
        >((env2, b)),
    ensures
        eval_expr(fns, fuel, env, e) == Ok::<(SpecEnv, SpecValue), SpecFailure>(
            (env2, SpecValue::Bool(if op == BinaryOp::Eq { a == b } else { a != b })),
        ),
{
    assert(eval_expr(fns, fuel, env, e) == eval_binary(fns, fuel, env, e));
}


// ----------------------------------------------------------------------
// Which names the scopes bind across an evaluation
// ----------------------------------------------------------------------

/// `after` still binds every name of `before`, each as mutable as it was, and
/// an immutable binding keeps its value.
pub open spec fn keeps_bindings(
    before: Map<Seq<char>, SpecBinding>,
    after: Map<Seq<char>, SpecBinding>,
) -> bool {
    forall|k: Seq<char>| #[trigger]
        before.contains_key(k) ==> after.contains_key(k) && after[k].mutable == before[k].mutable
            && (!before[k].mutable ==> after[k] == before[k])
}

/// `after` binds exactly the names of `before`, as `keeps_bindings` says.
pub open spec fn same_bindings(
    before: Map<Seq<char>, SpecBinding>,
    after: Map<Seq<char>, SpecBinding>,
) -> bool {
    &&& keeps_bindings(before, after)
    &&& forall|k: Seq<char>| #[trigger] after.contains_key(k) ==> before.contains_key(k)
}

/// Every scope binds the same names as before, just as mutable, immutable
/// ones with the same values: only mutable variables may have changed.
pub open spec fn keeps_scopes(before: SpecEnv, after: SpecEnv) -> bool {
    &&& after.scopes.len() == before.scopes.len()
    &&& forall|i: int|
        0 <= i < before.scopes.len() ==> #[trigger] same_bindings(before.scopes[i], after.scopes[i])
}

/// As `keeps_scopes`, except that the innermost scope may also have gained
/// names (by `let`).
pub open spec fn keeps_outer_scopes(before: SpecEnv, after: SpecEnv) -> bool {
    &&& after.scopes.len() == before.scopes.len()
    &&& forall|i: int|
        0 <= i < before.scopes.len() - 1 ==> #[trigger] same_bindings(
            before.scopes[i],
            after.scopes[i],
        )
    &&& before.scopes.len() > 0 ==> keeps_bindings(before.scopes.last(), after.scopes.last())
}

proof fn lemma_same_bindings_trans(
    a: Map<Seq<char>, SpecBinding>,
    b: Map<Seq<char>, SpecBinding>,
    c: Map<Seq<char>, SpecBinding>,
)
    ensures
        keeps_bindings(a, b) && keeps_bindings(b, c) ==> keeps_bindings(a, c),
        same_bindings(a, b) && same_bindings(b, c) ==> same_bindings(a, c),
{
}

proof fn lemma_scopes_refl(a: SpecEnv)
    ensures
        keeps_scopes(a, a),
        keeps_outer_scopes(a, a),
{
    assert forall|i: int| 0 <= i < a.scopes.len() implies #[trigger] same_bindings(
        a.scopes[i],
        a.scopes[i],
    ) by {}
}

proof fn lemma_scopes_trans(a: SpecEnv, b: SpecEnv, c: SpecEnv)
    ensures
        keeps_scopes(a, b) && keeps_scopes(b, c) ==> keeps_scopes(a, c),
        keeps_outer_scopes(a, b) && keeps_outer_scopes(b, c) ==> keeps_outer_scopes(a, c),
        keeps_scopes(a, b) ==> keeps_outer_scopes(a, b),
{
    if keeps_scopes(a, b) && keeps_scopes(b, c) {
        assert forall|i: int| 0 <= i < a.scopes.len() implies #[trigger] same_bindings(
            a.scopes[i],
            c.scopes[i],
        ) by {
            assert(same_bindings(a.scopes[i], b.scopes[i]));
            assert(same_bindings(b.scopes[i], c.scopes[i]));
            lemma_same_bindings_trans(a.scopes[i], b.scopes[i], c.scopes[i]);
        }
    }
    if keeps_outer_scopes(a, b) && keeps_outer_scopes(b, c) {
        assert forall|i: int| 0 <= i < a.scopes.len() - 1 implies #[trigger] same_bindings(
            a.scopes[i],
            c.scopes[i],
        ) by {
            assert(same_bindings(a.scopes[i], b.scopes[i]));
            assert(same_bindings(b.scopes[i], c.scopes[i]));
            lemma_same_bindings_trans(a.scopes[i], b.scopes[i], c.scopes[i]);
        }
        if a.scopes.len() > 0 {
            lemma_same_bindings_trans(a.scopes.last(), b.scopes.last(), c.scopes.last());
        }
    }
    if keeps_scopes(a, b) && a.scopes.len() > 0 {
        assert(same_bindings(a.scopes[a.scopes.len() - 1], b.scopes[a.scopes.len() - 1]));
    }
}

/// What a statement run in a fresh scope does to the scopes around it: they
/// come back with the same names, once that scope is popped.
proof fn lemma_pop_pushed(env: SpecEnv, env1: SpecEnv)
    requires
        keeps_outer_scopes(push_scope(env), env1),
    ensures
        keeps_scopes(env, pop_scope(env1)),
{
    let env0 = push_scope(env);
    assert forall|i: int| 0 <= i < env.scopes.len() implies #[trigger] same_bindings(
        env.scopes[i],
        pop_scope(env1).scopes[i],
    ) by {
        assert(same_bindings(env0.scopes[i], env1.scopes[i]));
    }
}

proof fn lemma_declare_scopes(env: SpecEnv, name: Seq<char>, value: SpecValue, mutable: bool, span: Span)
    ensures
        declare(env, name, value, mutable, span) matches Ok(env1) ==> keeps_outer_scopes(env, env1),
{
    match declare(env, name, value, mutable, span) {
        Ok(env1) => {
            let n = env.scopes.len() as int;
            assert forall|i: int| 0 <= i < n - 1 implies #[trigger] same_bindings(
                env.scopes[i],
                env1.scopes[i],
            ) by {
                assert(env1.scopes[i] == env.scopes[i]);
            }
        },
        Err(_) => {},
    }
}

proof fn lemma_assign_scopes(env: SpecEnv, name: Seq<char>, value: SpecValue, span: Span)
    ensures
        assign(env, name, value, span) matches Ok(env1) ==> keeps_scopes(env, env1),
{
    lemma_innermost_bounds(env.scopes, name, env.scopes.len() as int);
    match assign(env, name, value, span) {
        Ok(env1) => {
            let j = find_scope(env, name)->0;
            assert forall|i: int| 0 <= i < env.scopes.len() implies #[trigger] same_bindings(
                env.scopes[i],
                env1.scopes[i],
            ) by {
                if i != j {
                    assert(env1.scopes[i] == env.scopes[i]);
                }
            }
        },
        Err(_) => {},
    }
}

proof fn lemma_bind_params_scopes(env: SpecEnv, params: Seq<SpecParam>, args: Seq<SpecValue>)
    ensures
        bind_params(env, params, args) matches Ok(env1) ==> keeps_outer_scopes(env, env1),
    decreases params.len(),
{
    lemma_scopes_refl(env);
    if params.len() > 0 && args.len() > 0 {
        lemma_declare_scopes(env, params[0].name, args[0], false, params[0].span);
        match declare(env, params[0].name, args[0], false, params[0].span) {
            Ok(env1) => {
                let ps = params.subrange(1, params.len() as int);
                let vs = args.subrange(1, args.len() as int);
                lemma_bind_params_scopes(env1, ps, vs);
                match bind_params(env1, ps, vs) {
                    Ok(env2) => lemma_scopes_trans(env, env1, env2),
                    Err(_) => {},
                }
            },
            Err(_) => {},
        }
    }
}

/// Evaluating an expression leaves every scope with the same names, just as
/// mutable, immutable ones with the same values.
pub proof fn lemma_expr_scopes(fns: FnTable, fuel: nat, env: SpecEnv, e: SpecExpr)
    ensures
        eval_expr(fns, fuel, env, e) matches Ok((env1, _)) ==> keeps_scopes(env, env1),
    decreases fuel, 1int, e, 2int,
{
    lemma_scopes_refl(env);
    match e.kind {
        SpecExprKind::Unary { op, expr } => {
            lemma_expr_scopes(fns, fuel, env, *expr);
        },
        SpecExprKind::Binary { .. } => {
            lemma_binary_scopes(fns, fuel, env, e);
        },
        SpecExprKind::Call { name, args } => {
            lemma_args_scopes(fns, fuel, env, args, Seq::empty());
            match eval_args(fns, fuel, env, args, Seq::empty()) {
                Ok((env1, vals)) => {
                    lemma_call_scopes(fns, fuel, env1, name, vals, e.span);
                    match call_named(fns, fuel, env1, name, vals, e.span) {
                        Ok((env2, _)) => lemma_scopes_trans(env, env1, env2),
                        Err(_) => {},
                    }
                },
                Err(_) => {},
            }
        },
        _ => {},
    }
}

pub proof fn lemma_binary_scopes(fns: FnTable, fuel: nat, env: SpecEnv, e: SpecExpr)
    ensures
        eval_binary(fns, fuel, env, e) matches Ok((env1, _)) ==> keeps_scopes(env, env1),
    decreases fuel, 1int, e, 1int,
{
    match e.kind {
        SpecExprKind::Binary { left, op, right } => {
            lemma_expr_scopes(fns, fuel, env, *left);
            match eval_expr(fns, fuel, env, *left) {
                Ok((env1, _)) => {
                    lemma_expr_scopes(fns, fuel, env1, *right);
                    match eval_expr(fns, fuel, env1, *right) {
                        Ok((env2, _)) => lemma_scopes_trans(env, env1, env2),
                        Err(_) => {},
                    }
                },
                Err(_) => {},
            }
        },
        _ => {},
    }
}

pub proof fn lemma_args_scopes(
    fns: FnTable,
    fuel: nat,
    env: SpecEnv,
    args: Seq<SpecExpr>,
    acc: Seq<SpecValue>,
)
    ensures
        eval_args(fns, fuel, env, args, acc) matches Ok((env1, _)) ==> keeps_scopes(env, env1),
    decreases fuel, 1int, args, 0int,
{
    lemma_scopes_refl(env);
    if args.len() > 0 {
        lemma_expr_scopes(fns, fuel, env, args[0]);
        match eval_expr(fns, fuel, env, args[0]) {
            Ok((env1, v)) => {
                let rest = args.subrange(1, args.len() as int);
                lemma_args_scopes(fns, fuel, env1, rest, acc.push(v));
                match eval_args(fns, fuel, env1, rest, acc.push(v)) {
                    Ok((env2, _)) => lemma_scopes_trans(env, env1, env2),
                    Err(_) => {},
                }
            },
            Err(_) => {},
        }
    }
}

/// A call returns with the caller's scopes binding the same names, just as
/// mutable, immutable ones with the same values: the callee's parameters and
/// `let`s are gone.
pub proof fn lemma_call_scopes(
    fns: FnTable,
    fuel: nat,
    env: SpecEnv,
    name: Seq<char>,
    args: Seq<SpecValue>,
    span: Span,
)
    ensures
        call_named(fns, fuel, env, name, args, span) matches Ok((env1, _)) ==> keeps_scopes(
            env,
            env1,
        ),
    decreases fuel, 0int, name, 0int,
{
    lemma_scopes_refl(env);
    if name != "print"@ && fns.contains_key(name) && args.len() == fns[name].params.len() && fuel
        > 0 {
        let func = fns[name];
        let env0 = push_scope(env);
        lemma_bind_params_scopes(env0, func.params, args);
        match bind_params(env0, func.params, args) {
            Ok(env1) => {
                lemma_stmt_scopes(fns, (fuel - 1) as nat, env1, func.body);
                match exec_stmt(fns, (fuel - 1) as nat, env1, func.body) {
                    Ok((env2, _)) => {
                        lemma_scopes_trans(env0, env1, env2);
                        lemma_pop_pushed(env, env2);
                    },
                    Err(_) => {},
                }
            },
            Err(_) => {},
        }
    }
}

/// Executing a statement leaves every scope but the innermost with the same
/// names, just as mutable, immutable ones with the same values; the innermost
/// keeps its names likewise and may gain more (by `let`).
pub proof fn lemma_stmt_scopes(fns: FnTable, fuel: nat, env: SpecEnv, s: SpecStmt)
    ensures
        exec_stmt(fns, fuel, env, s) matches Ok((env1, _)) ==> keeps_outer_scopes(env, env1),
    decreases fuel, 2int, s, 1int,
{
    lemma_scopes_refl(env);
    match s.kind {
        SpecStmtKind::Let { name, mutable, value } => {
            lemma_expr_scopes(fns, fuel, env, value);
            match eval_expr(fns, fuel, env, value) {
                Ok((env1, v)) => {
                    lemma_declare_scopes(env1, name, v, mutable, s.span);
                    match declare(env1, name, v, mutable, s.span) {
                        Ok(env2) => {
                            lemma_scopes_trans(env, env1, env2);
                            lemma_scopes_trans(env, env1, env1);
                        },
                        Err(_) => {},
                    }
                },
                Err(_) => {},
            }
        },
        SpecStmtKind::Assign { name, value } => {
            lemma_expr_scopes(fns, fuel, env, value);
            match eval_expr(fns, fuel, env, value) {
                Ok((env1, v)) => {
                    lemma_assign_scopes(env1, name, v, s.span);
                    match assign(env1, name, v, s.span) {
                        Ok(env2) => {
                            lemma_scopes_trans(env, env1, env2);
                            lemma_scopes_trans(env, env2, env2);
                        },
                        Err(_) => {},
                    }
                },
                Err(_) => {},
            }
        },
        SpecStmtKind::ExprStmt(e) => {
            lemma_expr_scopes(fns, fuel, env, e);
            match eval_expr(fns, fuel, env, e) {
                Ok((env1, _)) => lemma_scopes_trans(env, env1, env1),
                Err(_) => {},
            }
        },
        SpecStmtKind::Return(e) => {
            lemma_expr_scopes(fns, fuel, env, e);
            match eval_expr(fns, fuel, env, e) {
                Ok((env1, _)) => lemma_scopes_trans(env, env1, env1),
                Err(_) => {},
            }
        },
        SpecStmtKind::Block(stmts) => {
            lemma_block_scopes(fns, fuel, push_scope(env), stmts);
            match exec_block(fns, fuel, push_scope(env), stmts) {
                Ok((env1, _)) => {
                    lemma_pop_pushed(env, env1);
                    lemma_scopes_trans(env, pop_scope(env1), pop_scope(env1));
                },
                Err(_) => {},
            }
        },
        SpecStmtKind::If { cond, then_branch, else_branch } => {
            lemma_expr_scopes(fns, fuel, env, cond);
            match eval_expr(fns, fuel, env, cond) {
                Ok((env1, SpecValue::Bool(b))) => {
                    lemma_scopes_trans(env, env1, env1);
                    if b {
                        lemma_stmt_scopes(fns, fuel, env1, *then_branch);
                        match exec_stmt(fns, fuel, env1, *then_branch) {
                            Ok((env2, _)) => lemma_scopes_trans(env, env1, env2),
                            Err(_) => {},
                        }
                    } else {
                        match else_branch {
                            Some(els) => {
                                lemma_stmt_scopes(fns, fuel, env1, *els);
                                match exec_stmt(fns, fuel, env1, *els) {
                                    Ok((env2, _)) => lemma_scopes_trans(env, env1, env2),
                                    Err(_) => {},
                                }
                            },
                            None => {},
                        }
                    }
                },
                _ => {},
            }
        },
        SpecStmtKind::While { cond, body } => {
            if fuel > 0 {
                lemma_expr_scopes(fns, fuel, env, cond);
                match eval_expr(fns, fuel, env, cond) {
                    Ok((env1, SpecValue::Bool(true))) => {
                        lemma_scopes_trans(env, env1, env1);
                        lemma_stmt_scopes(fns, fuel, env1, *body);
                        match exec_stmt(fns, fuel, env1, *body) {
                            Ok((env2, flow)) => {
                                lemma_scopes_trans(env, env1, env2);
                                if flow is Continue {
                                    lemma_stmt_scopes(fns, (fuel - 1) as nat, env2, s);
                                    match exec_stmt(fns, (fuel - 1) as nat, env2, s) {
                                        Ok((env3, _)) => lemma_scopes_trans(env, env2, env3),
                                        Err(_) => {},
                                    }
                                }
                            },
                            Err(_) => {},
                        }
                    },
                    Ok((env1, _)) => lemma_scopes_trans(env, env1, env1),
                    _ => {},
                }
            }
        },
    }
}

pub proof fn lemma_block_scopes(fns: FnTable, fuel: nat, env: SpecEnv, stmts: Seq<SpecStmt>)
    ensures
        exec_block(fns, fuel, env, stmts) matches Ok((env1, _)) ==> keeps_outer_scopes(env, env1),
    decreases fuel, 2int, stmts, 0int,
{
    lemma_scopes_refl(env);
    if stmts.len() > 0 {
        lemma_stmt_scopes(fns, fuel, env, stmts[0]);
        match exec_stmt(fns, fuel, env, stmts[0]) {
            Ok((env1, flow)) => {
                if flow is Continue {
                    let rest = stmts.subrange(1, stmts.len() as int);
                    lemma_block_scopes(fns, fuel, env1, rest);
                    match exec_block(fns, fuel, env1, rest) {
                        Ok((env2, _)) => lemma_scopes_trans(env, env1, env2),
                        Err(_) => {},
                    }
                }
            },
            Err(_) => {},
        }
    }
}

/// A block leaves the scopes around it as it found them, but for the values
/// of mutable variables: the same names, just as mutable, immutable ones with
/// the same values; every name declared inside it is gone.
pub proof fn lemma_block_keeps_scopes(fns: FnTable, fuel: nat, env: SpecEnv, s: SpecStmt)
    requires
        s.kind is Block,
    ensures
        exec_stmt(fns, fuel, env, s) matches Ok((env1, _)) ==> keeps_scopes(env, env1),
{
    match s.kind {
        SpecStmtKind::Block(stmts) => {
            lemma_block_scopes(fns, fuel, push_scope(env), stmts);
            match exec_block(fns, fuel, push_scope(env), stmts) {
                Ok((env1, _)) => lemma_pop_pushed(env, env1),
                Err(_) => {},
            }
        },
        _ => {},
    }
}


// ----------------------------------------------------------------------
// What statements, calls and operators do
// ----------------------------------------------------------------------

/// An `if` runs its `then` branch when the condition is `true`, its `else`
/// branch (or nothing) when it is `false`, in the state the condition left.
pub proof fn lemma_if_branches(
    fns: FnTable,
    fuel: nat,
    env: SpecEnv,
    s: SpecStmt,
    env1: SpecEnv,
    b: bool,
)
    requires
        s.kind matches SpecStmtKind::If { cond, .. } && eval_expr(fns, fuel, env, cond) == Ok::<
            (SpecEnv, SpecValue),
            SpecFailure,
        >((env1, SpecValue::Bool(b))),
    ensures
        s.kind matches SpecStmtKind::If { then_branch, else_branch, .. } && exec_stmt(
            fns,
            fuel,
            env,
            s,
        ) == if b {
            exec_stmt(fns, fuel, env1, *then_branch)
        } else if else_branch is Some {
            exec_stmt(fns, fuel, env1, *else_branch->0)
        } else {
            Ok::<(SpecEnv, SpecFlow), SpecFailure>((env1, SpecFlow::Continue))
        },
{
}

/// Binding parameters puts the `i`-th argument under the `i`-th parameter's
/// name, immutable, in the innermost scope; the innermost scope keeps what it
/// had and gains only the parameters; the other scopes and the output stay
/// as they were.
pub proof fn lemma_bind_params_binds(env: SpecEnv, params: Seq<SpecParam>, args: Seq<SpecValue>)
    requires
        env.scopes.len() > 0,
        params.len() == args.len(),
        bind_params(env, params, args) is Ok,
    ensures
        ({
            let env1 = bind_params(env, params, args)->Ok_0;
            let top = env.scopes.last();
            let top1 = env1.scopes.last();
            &&& env1.scopes.len() == env.scopes.len()
            &&& env1.scopes.drop_last() == env.scopes.drop_last()
            &&& env1.output == env.output
            &&& forall|i: int|
                0 <= i < params.len() ==> #[trigger] top1.contains_key(params[i].name)
                    && top1[params[i].name] == (SpecBinding { value: args[i], mutable: false })
            &&& forall|k: Seq<char>| #[trigger]
                top.contains_key(k) ==> top1.contains_key(k) && top1[k] == top[k]
            &&& forall|k: Seq<char>| #[trigger]
                top1.contains_key(k) ==> top.contains_key(k) || exists|i: int|
                    0 <= i < params.len() && params[i].name == k
        }),
    decreases params.len(),
{
    if params.len() > 0 {
        let env0 = declare(env, params[0].name, args[0], false, params[0].span)->Ok_0;
        let ps = params.subrange(1, params.len() as int);
        let vs = args.subrange(1, args.len() as int);
        assert(env0.scopes.drop_last() =~= env.scopes.drop_last());
        lemma_bind_params_binds(env0, ps, vs);
        let env1 = bind_params(env, params, args)->Ok_0;
        let top = env.scopes.last();
        let top0 = env0.scopes.last();
        let top1 = env1.scopes.last();
        assert forall|i: int| 0 <= i < params.len() implies #[trigger] top1.contains_key(
            params[i].name,
        ) && top1[params[i].name] == (SpecBinding { value: args[i], mutable: false }) by {
            if i == 0 {
                assert(top0.contains_key(params[0].name));
            } else {
                assert(ps[i - 1] == params[i]);
                assert(top1.contains_key(ps[i - 1].name));
            }
        }
        assert forall|k: Seq<char>| #[trigger] top.contains_key(k) implies top1.contains_key(k)
            && top1[k] == top[k] by {
            assert(top0.contains_key(k) && top0[k] == top[k]);
        }
        assert forall|k: Seq<char>| #[trigger] top1.contains_key(k) implies top.contains_key(k)
            || exists|i: int| 0 <= i < params.len() && params[i].name == k by {
            if !top.contains_key(k) && k != params[0].name {
                assert(top0.contains_key(k) || exists|i: int| 0 <= i < ps.len() && ps[i].name == k);
                let i = choose|i: int| 0 <= i < ps.len() && ps[i].name == k;
                assert(params[i + 1].name == k);
            }
        }
    }
}

/// A call of a function whose body returns its `k`-th parameter gives the
/// `k`-th argument and leaves the caller's state as it was: arguments are
/// bound to parameters in order.
pub proof fn lemma_call_returns_parameter(
    fns: FnTable,
    fuel: nat,
    env: SpecEnv,
    name: Seq<char>,
    args: Seq<SpecValue>,
    span: Span,
    k: int,
)
    requires
        name != "print"@,
        fns.contains_key(name),
        fuel > 0,
        args.len() == fns[name].params.len(),
        0 <= k < args.len(),
        bind_params(push_scope(env), fns[name].params, args) is Ok,
        fns[name].body.kind matches SpecStmtKind::Return(e) && e.kind == SpecExprKind::Var(
            fns[name].params[k].name,
        ),
        type_matches(fns[name].return_type, args[k]),
    ensures
        call_named(fns, fuel, env, name, args, span) == Ok::<(SpecEnv, SpecValue), SpecFailure>(
            (env, args[k]),
        ),
{
    let func = fns[name];
    let env0 = push_scope(env);
    lemma_bind_params_binds(env0, func.params, args);
    let env1 = bind_params(env0, func.params, args)->Ok_0;
    let n = env1.scopes.len() as int;
    let pname = func.params[k].name;
    assert(env1.scopes[n - 1].contains_key(pname));
    assert(find_scope(env1, pname) == Some(n - 1));
    assert(env1.scopes.drop_last() =~= env.scopes);
    assert(pop_scope(env1) == env);
}

/// The `i64` operators on integers, over the mathematical integers: `+`,
/// `-` and `*` give the exact result when it fits an `i64` and overflow when
/// it does not; `/` fails on a zero divisor and otherwise truncates toward
/// zero; `<`, `<=`, `>` and `>=` compare. The left operand is evaluated
/// first, the right one in the state it left.
pub proof fn lemma_int_operators(
    fns: FnTable,
    fuel: nat,
    env: SpecEnv,
    e: SpecExpr,
    op: BinaryOp,
    env1: SpecEnv,
    a: i64,
    env2: SpecEnv,
    b: i64,
)
    requires
        e.kind matches SpecExprKind::Binary { left, op: o, right } && o == op && eval_expr(
            fns,
            fuel,
            env,
            *left,
        ) == Ok::<(SpecEnv, SpecValue), SpecFailure>((env1, SpecValue::Int(a))) && eval_expr(
            fns,
            fuel,
            env1,
            *right,
        ) == Ok::<(SpecEnv, SpecValue), SpecFailure>((env2, SpecValue::Int(b))),
    ensures
        op == BinaryOp::Lt ==> eval_expr(fns, fuel, env, e) == Ok::<
            (SpecEnv, SpecValue),
            SpecFailure,
        >((env2, SpecValue::Bool(a < b))),
        op == BinaryOp::Le ==> eval_expr(fns, fuel, env, e) == Ok::<
            (SpecEnv, SpecValue),
            SpecFailure,
        >((env2, SpecValue::Bool(a <= b))),
        op == BinaryOp::Gt ==> eval_expr(fns, fuel, env, e) == Ok::<
            (SpecEnv, SpecValue),
            SpecFailure,
        >((env2, SpecValue::Bool(a > b))),
        op == BinaryOp::Ge ==> eval_expr(fns, fuel, env, e) == Ok::<
            (SpecEnv, SpecValue),
            SpecFailure,
        >((env2, SpecValue::Bool(a >= b))),
        op == BinaryOp::Add ==> eval_expr(fns, fuel, env, e) == if i64::MIN <= a + b <= i64::MAX {
            Ok::<(SpecEnv, SpecValue), SpecFailure>((env2, SpecValue::Int((a + b) as i64)))
        } else {
            Err(SpecFailure::Overflow)
        },
        op == BinaryOp::Sub ==> eval_expr(fns, fuel, env, e) == if i64::MIN <= a - b <= i64::MAX {
            Ok::<(SpecEnv, SpecValue), SpecFailure>((env2, SpecValue::Int((a - b) as i64)))
        } else {
            Err(SpecFailure::Overflow)
        },
        op == BinaryOp::Mul ==> eval_expr(fns, fuel, env, e) == if i64::MIN <= a * b <= i64::MAX {
            Ok::<(SpecEnv, SpecValue), SpecFailure>((env2, SpecValue::Int((a * b) as i64)))
        } else {
            Err(SpecFailure::Overflow)
        },
        op == BinaryOp::Div && b == 0 ==> eval_expr(fns, fuel, env, e) == Err::<
            (SpecEnv, SpecValue),
            SpecFailure,
        >(runtime_error("division by zero"@, e.span)),
        op == BinaryOp::Div && b != 0 ==> eval_expr(fns, fuel, env, e) == if i64::MIN
            <= truncated_quotient(a as int, b as int) <= i64::MAX {
            Ok::<(SpecEnv, SpecValue), SpecFailure>(
                (env2, SpecValue::Int(truncated_quotient(a as int, b as int) as i64)),
            )
        } else {
            Err(SpecFailure::Overflow)
        },
{
    assert(eval_expr(fns, fuel, env, e) == eval_binary(fns, fuel, env, e));
}

/// `a / b` rounded toward zero.
pub open spec fn truncated_quotient(a: int, b: int) -> int {
    let q = abs(a) / abs(b);
    if (a < 0) == (b < 0) {
        q
    } else {
        -q
    }
}

pub open spec fn abs(x: int) -> int {
    if x < 0 {
        -x
    } else {
        x
    }
}


/// A `while` loop, one round at a time: with a `false` condition it ends;
/// with a `true` one it runs the body, stops at a `return` in it, and
/// otherwise goes round again (with one unit less of the budget) in the
/// state the body left.
pub proof fn lemma_while_rounds(
    fns: FnTable,
    fuel: nat,
    env: SpecEnv,
    s: SpecStmt,
    env1: SpecEnv,
    b: bool,
)
    requires
        fuel > 0,
        s.kind matches SpecStmtKind::While { cond, .. } && eval_expr(fns, fuel, env, cond)
            == Ok::<(SpecEnv, SpecValue), SpecFailure>((env1, SpecValue::Bool(b))),
    ensures
        !b ==> exec_stmt(fns, fuel, env, s) == Ok::<(SpecEnv, SpecFlow), SpecFailure>(
            (env1, SpecFlow::Continue),
        ),
        s.kind matches SpecStmtKind::While { body, .. } && (b ==> match exec_stmt(
            fns,
            fuel,
            env1,
            *body,
        ) {
            Ok((env2, SpecFlow::Continue)) => exec_stmt(fns, fuel, env, s) == exec_stmt(
                fns,
                (fuel - 1) as nat,
                env2,
                s,
            ),
            other => exec_stmt(fns, fuel, env, s) == other,
        }),
{
}

/// After `let name = value;` the name is bound, in the innermost scope, to
/// the value with the declared mutability, and a lookup finds that value.
pub proof fn lemma_let_binds(fns: FnTable, fuel: nat, env: SpecEnv, s: SpecStmt, env1: SpecEnv, v: SpecValue)
    requires
        s.kind matches SpecStmtKind::Let { value, .. } && eval_expr(fns, fuel, env, value) == Ok::<
            (SpecEnv, SpecValue),
            SpecFailure,
        >((env1, v)),
        env1.scopes.len() > 0,
        s.kind matches SpecStmtKind::Let { name, .. } && !env1.scopes.last().contains_key(name),
    ensures
        s.kind matches SpecStmtKind::Let { name, mutable, .. } && exec_stmt(fns, fuel, env, s) matches Ok(
            (env2, flow),
        ) && flow is Continue && env2.scopes.len() == env1.scopes.len() && env2.scopes.last()[name]
            == (SpecBinding { value: v, mutable }) && lookup(env2, name, s.span) == Ok::<
            SpecValue,
            SpecFailure,
        >(v),
{
}

/// After a successful assignment a lookup of the name finds the new value.
pub proof fn lemma_assign_then_lookup(env: SpecEnv, name: Seq<char>, value: SpecValue, span: Span, span2: Span)
    requires
        assign(env, name, value, span) is Ok,
    ensures
        lookup(assign(env, name, value, span)->Ok_0, name, span2) == Ok::<SpecValue, SpecFailure>(
            value,
        ),
{
    let env1 = assign(env, name, value, span)->Ok_0;
    let i = find_scope(env, name)->0;
    lemma_innermost_bounds(env.scopes, name, env.scopes.len() as int);
    lemma_innermost_same(env.scopes, env1.scopes, name, env.scopes.len() as int, i);
}

/// Updating scope `i` with a name it binds moves no innermost binding.
proof fn lemma_innermost_same(
    a: Seq<Map<Seq<char>, SpecBinding>>,
    b: Seq<Map<Seq<char>, SpecBinding>>,
    name: Seq<char>,
    n: int,
    i: int,
)
    requires
        a.len() == b.len(),
        0 <= n <= a.len(),
        0 <= i < a.len(),
        forall|j: int| 0 <= j < a.len() && j != i ==> #[trigger] b[j] == a[j],
        a[i].contains_key(name),
        b[i].contains_key(name),
    ensures
        innermost(b, name, n) == innermost(a, name, n),
    decreases n,
{
    if n > 0 {
        lemma_innermost_same(a, b, name, n - 1, i);
    }
}

/// `print(v)` returns `()` and appends `v` as shown, then a newline, to the
/// output; the scopes stay as they were.
pub proof fn lemma_print_appends(fns: FnTable, fuel: nat, env: SpecEnv, v: SpecValue, span: Span)
    ensures
        call_named(fns, fuel, env, "print"@, seq![v], span) == Ok::<(SpecEnv, SpecValue), SpecFailure>(
            (SpecEnv { scopes: env.scopes, output: env.output + display(v) + seq!['\n'] }, SpecValue::Unit),
        ),
{
    reveal_strlit("\n");
    assert("\n"@ =~= seq!['\n']);
}

/// How `print` shows values: integers in decimal (with `-` when negative),
/// booleans as `true` and `false`, strings as they are, `()` as `()`.
pub proof fn lemma_display(v: SpecValue)
    ensures
        v matches SpecValue::Int(i) ==> digits_value(display(v).subrange(
            if i < 0 { 1int } else { 0int },
            display(v).len() as int,
        )) == abs(i as int) && (i < 0 <==> display(v)[0] == '-'),
        v matches SpecValue::Bool(b) ==> display(v) == if b {
            seq!['t', 'r', 'u', 'e']
        } else {
            seq!['f', 'a', 'l', 's', 'e']
        },
        v matches SpecValue::Str(t) ==> display(v) == t,
        v is Unit ==> display(v) == seq!['(', ')'],
{
    reveal_strlit("true");
    reveal_strlit("false");
    reveal_strlit("()");
    match v {
        SpecValue::Int(i) => {
            let n = abs(i as int) as nat;
            lemma_decimal_reads_back(n);
            let d = display(v);
            if i < 0 {
                assert(d == seq!['-'] + decimal(n));
                assert(d.subrange(1, d.len() as int) =~= decimal(n));
            } else {
                assert(d.subrange(0, d.len() as int) =~= decimal(n));
                assert(decimal(n)[0] != '-');
            }
        },
        SpecValue::Bool(b) => {
            assert("true"@ =~= seq!['t', 'r', 'u', 'e']);
            assert("false"@ =~= seq!['f', 'a', 'l', 's', 'e']);
        },
        SpecValue::Unit => {
            assert("()"@ =~= seq!['(', ')']);
        },
        _ => {},
    }
}

/// `!` negates a `bool`; unary `-` negates an `i64`, overflowing only on the
/// smallest one.
pub proof fn lemma_unary_operators(fns: FnTable, fuel: nat, env: SpecEnv, e: SpecExpr, env1: SpecEnv, v: SpecValue)
    requires
        e.kind matches SpecExprKind::Unary { expr, .. } && eval_expr(fns, fuel, env, *expr) == Ok::<
            (SpecEnv, SpecValue),
            SpecFailure,
        >((env1, v)),
    ensures
        e.kind matches SpecExprKind::Unary { op, .. } && (op == UnaryOp::Not ==> (v matches SpecValue::Bool(b) ==> eval_expr(fns, fuel, env, e)
            == Ok::<(SpecEnv, SpecValue), SpecFailure>((env1, SpecValue::Bool(!b)))))
            && (op == UnaryOp::Neg ==> (v matches SpecValue::Int(i) ==> eval_expr(fns, fuel, env, e) == if i == i64::MIN {
                Err::<(SpecEnv, SpecValue), SpecFailure>(SpecFailure::Overflow)
            } else {
                Ok::<(SpecEnv, SpecValue), SpecFailure>((env1, SpecValue::Int((0 - i) as i64)))
            })),
{
}

/// `+` on two strings concatenates them, left first.
pub proof fn lemma_string_concat(
    fns: FnTable,
    fuel: nat,
    env: SpecEnv,
    e: SpecExpr,
    env1: SpecEnv,
    l: Seq<char>,
    env2: SpecEnv,
    r: Seq<char>,
)
    requires
        e.kind matches SpecExprKind::Binary { left, op, right } && op == BinaryOp::Add
            && eval_expr(fns, fuel, env, *left) == Ok::<(SpecEnv, SpecValue), SpecFailure>(
            (env1, SpecValue::Str(l)),
        ) && eval_expr(fns, fuel, env1, *right) == Ok::<(SpecEnv, SpecValue), SpecFailure>(
            (env2, SpecValue::Str(r)),
        ),
    ensures
        eval_expr(fns, fuel, env, e) matches Ok((env3, SpecValue::Str(t))) && env3 == env2
            && t.len() == l.len() + r.len() && t.subrange(0, l.len() as int) == l && t.subrange(
            l.len() as int,
            t.len() as int,
        ) == r,
{
    assert(eval_expr(fns, fuel, env, e) == eval_binary(fns, fuel, env, e));
    let t = l + r;
    assert(t.subrange(0, l.len() as int) =~= l);
    assert(t.subrange(l.len() as int, t.len() as int) =~= r);
}


proof fn lemma_innermost_spec(scopes: Seq<Map<Seq<char>, SpecBinding>>, name: Seq<char>, n: int)
    requires
        0 <= n <= scopes.len(),
    ensures
        match innermost(scopes, name, n) {
            Some(i) => 0 <= i < n && scopes[i].contains_key(name) && forall|j: int|
                i < j < n ==> !(#[trigger] scopes[j]).contains_key(name),
            None => forall|j: int| 0 <= j < n ==> !(#[trigger] scopes[j]).contains_key(name),
        },
    decreases n,
{
    if n > 0 {
        lemma_innermost_spec(scopes, name, n - 1);
    }
}

/// A variable reads as its innermost binding: the value in the last scope
/// that binds the name; a name that no scope binds is an error.
pub proof fn lemma_lookup_innermost(env: SpecEnv, name: Seq<char>, span: Span)
    ensures
        (forall|j: int| 0 <= j < env.scopes.len() ==> !(#[trigger] env.scopes[j]).contains_key(name))
            <==> lookup(env, name, span) is Err,
        forall|i: int|
            0 <= i < env.scopes.len() && (#[trigger] env.scopes[i]).contains_key(name) && (forall|j: int|
                i < j < env.scopes.len() ==> !(#[trigger] env.scopes[j]).contains_key(name))
                ==> lookup(env, name, span) == Ok::<SpecValue, SpecFailure>(
                env.scopes[i][name].value,
            ),
{
    lemma_innermost_spec(env.scopes, name, env.scopes.len() as int);
    assert forall|i: int|
        0 <= i < env.scopes.len() && (#[trigger] env.scopes[i]).contains_key(name) && (forall|j: int|
            i < j < env.scopes.len() ==> !(#[trigger] env.scopes[j]).contains_key(name))
            implies lookup(env, name, span) == Ok::<SpecValue, SpecFailure>(
        env.scopes[i][name].value,
    ) by {
        let k = find_scope(env, name)->0;
        if k != i {
            if k < i {
            } else {
                assert(!env.scopes[k].contains_key(name));
            }
        }
    }
}

/// Registering a program's functions succeeds exactly when their names are
/// distinct, and then each name stands for its function.
pub proof fn lemma_register(fs: Seq<SpecFunction>)
    ensures
        register(fs) is Ok <==> forall|i: int, j: int|
            0 <= i < j < fs.len() ==> #[trigger] fs[i].name != #[trigger] fs[j].name,
        register(fs) matches Ok(table) ==> forall|i: int|
            0 <= i < fs.len() ==> table.contains_key(#[trigger] fs[i].name) && table[fs[i].name]
                == fs[i],
{
    lemma_register_from(Map::empty(), fs);
}

proof fn lemma_register_from(table: FnTable, fs: Seq<SpecFunction>)
    ensures
        register_from(table, fs) is Ok <==> (forall|i: int, j: int|
            0 <= i < j < fs.len() ==> #[trigger] fs[i].name != #[trigger] fs[j].name) && forall|i: int|
            0 <= i < fs.len() ==> !table.contains_key(#[trigger] fs[i].name),
        register_from(table, fs) matches Ok(t) ==> (forall|i: int|
            0 <= i < fs.len() ==> t.contains_key(#[trigger] fs[i].name) && t[fs[i].name] == fs[i])
            && forall|k: Seq<char>| #[trigger] table.contains_key(k) ==> t.contains_key(k) && t[k]
            == table[k],
    decreases fs.len(),
{
    if fs.len() > 0 {
        let f = fs[0];
        let rest = fs.subrange(1, fs.len() as int);
        let t1 = table.insert(f.name, f);
        lemma_register_from(t1, rest);
        if !table.contains_key(f.name) {
            if register_from(t1, rest) is Ok {
                assert forall|i: int, j: int| 0 <= i < j < fs.len() implies #[trigger] fs[i].name
                    != #[trigger] fs[j].name by {
                    if i == 0 {
                        assert(rest[j - 1] == fs[j]);
                        assert(t1.contains_key(fs[0].name));
                    } else {
                        assert(rest[i - 1] == fs[i] && rest[j - 1] == fs[j]);
                    }
                }
                assert forall|i: int| 0 <= i < fs.len() implies !table.contains_key(
                    #[trigger] fs[i].name,
                ) by {
                    if i > 0 {
                        assert(rest[i - 1] == fs[i]);
                    }
                }
                let t = register_from(t1, rest)->Ok_0;
                assert forall|k: Seq<char>| #[trigger] table.contains_key(k) implies t.contains_key(k)
                    && t[k] == table[k] by {
                    assert(t1.contains_key(k) && t1[k] == table[k]);
                }
                assert forall|i: int| 0 <= i < fs.len() implies t.contains_key(
                    #[trigger] fs[i].name,
                ) && t[fs[i].name] == fs[i] by {
                    if i > 0 {
                        assert(rest[i - 1] == fs[i]);
                    } else {
                        assert(t1.contains_key(f.name));
                    }
                }
            } else {
                if (forall|i: int, j: int|
                    0 <= i < j < fs.len() ==> #[trigger] fs[i].name != #[trigger] fs[j].name)
                    && forall|i: int| 0 <= i < fs.len() ==> !table.contains_key(#[trigger] fs[i].name) {
                    assert forall|i: int, j: int| 0 <= i < j < rest.len() implies #[trigger] rest[i].name
                        != #[trigger] rest[j].name by {
                        assert(fs[i + 1].name != fs[j + 1].name);
                    }
                    assert forall|i: int| 0 <= i < rest.len() implies !t1.contains_key(
                        #[trigger] rest[i].name,
                    ) by {
                        assert(fs[0].name != fs[i + 1].name);
                        assert(!table.contains_key(fs[i + 1].name));
                    }
                }
            }
        } else {
            assert(!table.contains_key(fs[0].name) == false);
        }
    }
}

/// A run's result: when the functions register and `main` is defined,
/// `main` is called with no arguments in an empty state; an `i64` it returns
/// is the exit code and the output is everything printed.
pub proof fn lemma_run_main(p: SpecProgram, fuel: nat, env: SpecEnv, code: i64)
    requires
        register(p.functions) matches Ok(fns) && fns.contains_key("main"@) && call_named(
            fns,
            fuel,
            empty_env(),
            "main"@,
            Seq::empty(),
            fns["main"@].span,
        ) == Ok::<(SpecEnv, SpecValue), SpecFailure>((env, SpecValue::Int(code))),
    ensures
        run_spec(p, fuel) == Ok::<(i64, Seq<char>), SpecFailure>((code, env.output)),
{
}

} // verus!
