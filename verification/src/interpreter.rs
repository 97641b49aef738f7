//! The interpreter: runs a program's `main` and collects what it prints.
//!
//! Each evaluation method is proved to do what `semantics` says of the
//! syntax tree's view, in the state's view.
use vstd::prelude::*;

use crate::ast::{
    exprs_view, functions_view, lemma_exprs_view, lemma_stmts_view, stmts_view, BinaryOp, Expr,
    ExprKind, Function, Program, Span, SpecExpr, SpecFunction, Stmt, StmtKind, TypeName, UnaryOp,
};
use crate::semantics::{
    apply_binary, arity_message, assign, bind_params, budget, call_named, declare, display,
    empty_env, eval_args, eval_binary, eval_expr, exec_block, exec_stmt, expects_i64, find_scope,
    innermost, lemma_call_frame, lookup, operator_text, pop_scope, print_builtin, push_scope,
    register, register_from, run_spec, runtime_error, type_matches, Eval, FnTable, SpecBinding,
    SpecEnv, SpecFailure, SpecFlow, SpecValue,
};
use crate::text::{push_decimal, push_decimal_i64, quote, render_error, rendered, text, SpecError};

verus! {

#[derive(Debug, Clone, PartialEq)]
pub enum Value {
    Int(i64),
    Bool(bool),
    String(String),
    Unit,
}

impl View for Value {
    type V = SpecValue;

    open spec fn view(&self) -> SpecValue {
        match self {
            Value::Int(i) => SpecValue::Int(*i),
            Value::Bool(b) => SpecValue::Bool(*b),
            Value::String(s) => SpecValue::Str(s@),
            Value::Unit => SpecValue::Unit,
        }
    }
}

impl Value {
    /// A copy of the value.
    pub fn duplicate(&self) -> (v: Value)
        ensures
            v == *self,
    {
        match self {
            Value::Int(i) => Value::Int(*i),
            Value::Bool(b) => Value::Bool(*b),
            Value::String(s) => Value::String(s.clone()),
            Value::Unit => Value::Unit,
        }
    }

    /// How `print` shows the value.
    pub fn render(&self) -> (s: String)
        ensures
            s@ == display(self@),
    {
        let mut s = String::new();
        push_display(&mut s, self);
        assert(s@ =~= display(self@));
        s
    }
}

/// Appends how `print` shows `v`.
fn push_display(out: &mut String, v: &Value)
    ensures
        final(out)@ == old(out)@ + display(v@),
{
    match v {
        Value::Int(i) => push_decimal_i64(out, *i),
        Value::Bool(b) => {
            if *b {
                out.append("true");
            } else {
                out.append("false");
            }
        },
        Value::String(s) => out.append(s.as_str()),
        Value::Unit => out.append("()"),
    }
}

#[derive(Debug, Clone, PartialEq, Eq)]
pub struct RuntimeError {
    pub message: String,
    pub line: usize,
    pub column: usize,
}

impl View for RuntimeError {
    type V = SpecError;

    open spec fn view(&self) -> SpecError {
        SpecError { message: self.message@, line: self.line, column: self.column }
    }
}

impl RuntimeError {
    fn new(message: String, span: Span) -> (e: Self)
        ensures
            e@ == (SpecError { message: message@, line: span.line, column: span.column }),
    {
        RuntimeError { message, line: span.line, column: span.column }
    }

    /// The text `[runtime] <message> at line <line>, column <column>`.
    pub fn render(&self) -> (s: String)
        ensures
            s@ == rendered("[runtime] "@, self@),
    {
        render_error("[runtime] ", &self.message, self.line, self.column)
    }
}

#[derive(Debug, Clone, PartialEq, Eq)]
pub struct ExecutionResult {
    pub exit_code: i64,
    pub output: String,
}

/// Why a run stopped without a result.
#[derive(Debug, Clone, PartialEq)]
pub enum Failure {
    /// A run-time error of the language.
    Error(RuntimeError),
    /// An `i64` operation whose result does not fit.
    Overflow,
    /// The run used up its budget of calls and loop rounds.
    OutOfFuel,
}

impl View for Failure {
    type V = SpecFailure;

    open spec fn view(&self) -> SpecFailure {
        match self {
            Failure::Error(e) => SpecFailure::Error(e@),
            Failure::Overflow => SpecFailure::Overflow,
            Failure::OutOfFuel => SpecFailure::OutOfFuel,
        }
    }
}

fn error(message: String, span: Span) -> (f: Failure)
    ensures
        f@ == runtime_error(message@, span),
{
    Failure::Error(RuntimeError::new(message, span))
}

// ----------------------------------------------------------------------
// Scopes
// ----------------------------------------------------------------------

struct Binding {
    value: Value,
    mutable: bool,
}

impl View for Binding {
    type V = SpecBinding;

    closed spec fn view(&self) -> SpecBinding {
        SpecBinding { value: self.value@, mutable: self.mutable }
    }
}

struct Entry {
    name: String,
    binding: Binding,
}

/// The names of a scope's entries are distinct.
spec fn distinct_names(entries: Seq<Entry>) -> bool {
    forall|i: int, j: int|
        0 <= i < entries.len() && 0 <= j < entries.len() && i != j ==> #[trigger] entries[i].name@
            != #[trigger] entries[j].name@
}

spec fn binds(entries: Seq<Entry>, name: Seq<char>) -> bool {
    exists|i: int| 0 <= i < entries.len() && #[trigger] entries[i].name@ == name
}

/// The bindings of a scope, by name.
spec fn scope_map(entries: Seq<Entry>) -> Map<Seq<char>, SpecBinding> {
    Map::new(
        |k: Seq<char>| binds(entries, k),
        |k: Seq<char>|
            entries[choose|i: int| 0 <= i < entries.len() && #[trigger] entries[i].name@ == k].binding@,
    )
}

proof fn lemma_scope_map_at(entries: Seq<Entry>, i: int)
    requires
        distinct_names(entries),
        0 <= i < entries.len(),
    ensures
        scope_map(entries).contains_key(entries[i].name@),
        scope_map(entries)[entries[i].name@] == entries[i].binding@,
{
    let k = entries[i].name@;
    assert(binds(entries, k));
    let j = choose|j: int| 0 <= j < entries.len() && #[trigger] entries[j].name@ == k;
    assert(j == i);
}

proof fn lemma_scope_map_push(entries: Seq<Entry>, e: Entry)
    requires
        distinct_names(entries),
        !scope_map(entries).contains_key(e.name@),
    ensures
        distinct_names(entries.push(e)),
        scope_map(entries.push(e)) =~= scope_map(entries).insert(e.name@, e.binding@),
{
    let s = entries.push(e);
    assert forall|i: int, j: int|
        0 <= i < s.len() && 0 <= j < s.len() && i != j implies #[trigger] s[i].name@
        != #[trigger] s[j].name@ by {
        if i == entries.len() {
            assert(!binds(entries, e.name@));
            assert(entries[j].name@ != e.name@);
        } else if j == entries.len() {
            assert(!binds(entries, e.name@));
            assert(entries[i].name@ != e.name@);
        }
    }
    assert forall|k: Seq<char>| #[trigger] scope_map(s).contains_key(k) <==> scope_map(
        entries,
    ).insert(e.name@, e.binding@).contains_key(k) by {
        if binds(s, k) {
            let i = choose|i: int| 0 <= i < s.len() && #[trigger] s[i].name@ == k;
            if i < entries.len() {
                assert(entries[i].name@ == k);
                assert(binds(entries, k));
            }
        }
        if binds(entries, k) {
            let i = choose|i: int| 0 <= i < entries.len() && #[trigger] entries[i].name@ == k;
            assert(s[i].name@ == k);
        }
        if k == e.name@ {
            assert(s[entries.len() as int].name@ == k);
        }
    }
    assert forall|k: Seq<char>| #[trigger] scope_map(s).contains_key(k) implies scope_map(s)[k]
        == scope_map(entries).insert(e.name@, e.binding@)[k] by {
        let i = choose|i: int| 0 <= i < s.len() && #[trigger] s[i].name@ == k;
        lemma_scope_map_at(s, i);
        if i < entries.len() {
            lemma_scope_map_at(entries, i);
        }
    }
}

proof fn lemma_scope_map_update(entries: Seq<Entry>, j: int, e: Entry)
    requires
        distinct_names(entries),
        0 <= j < entries.len(),
        e.name@ == entries[j].name@,
    ensures
        distinct_names(entries.update(j, e)),
        scope_map(entries.update(j, e)) =~= scope_map(entries).insert(e.name@, e.binding@),
{
    let s = entries.update(j, e);
    assert forall|a: int, b: int|
        0 <= a < s.len() && 0 <= b < s.len() && a != b implies #[trigger] s[a].name@
        != #[trigger] s[b].name@ by {
        assert(s[a].name@ == entries[a].name@);
        assert(s[b].name@ == entries[b].name@);
    }
    assert forall|k: Seq<char>| #[trigger] scope_map(s).contains_key(k) <==> scope_map(
        entries,
    ).insert(e.name@, e.binding@).contains_key(k) by {
        if binds(s, k) {
            let i = choose|i: int| 0 <= i < s.len() && #[trigger] s[i].name@ == k;
            assert(entries[i].name@ == k);
        }
        if binds(entries, k) {
            let i = choose|i: int| 0 <= i < entries.len() && #[trigger] entries[i].name@ == k;
            assert(s[i].name@ == k);
        }
        if k == e.name@ {
            assert(s[j].name@ == k);
        }
    }
    assert forall|k: Seq<char>| #[trigger] scope_map(s).contains_key(k) implies scope_map(s)[k]
        == scope_map(entries).insert(e.name@, e.binding@)[k] by {
        let i = choose|i: int| 0 <= i < s.len() && #[trigger] s[i].name@ == k;
        lemma_scope_map_at(s, i);
        if i != j {
            lemma_scope_map_at(entries, i);
        }
    }
}

struct Scope {
    entries: Vec<Entry>,
}

impl View for Scope {
    type V = Map<Seq<char>, SpecBinding>;

    closed spec fn view(&self) -> Map<Seq<char>, SpecBinding> {
        scope_map(self.entries@)
    }
}

impl Scope {
    /// The index of the entry for `name`.
    fn find(&self, name: &String) -> (r: Option<usize>)
        requires
            distinct_names(self.entries@),
        ensures
            match r {
                Some(j) => j < self.entries@.len() && self.entries@[j as int].name@ == name@,
                None => !self@.contains_key(name@),
            },
    {
        let mut j: usize = 0;
        while j < self.entries.len()
            invariant
                j <= self.entries@.len(),
                forall|k: int| 0 <= k < j ==> #[trigger] self.entries@[k].name@ != name@,
            decreases self.entries@.len() - j,
        {
            if self.entries[j].name == *name {
                return Some(j);
            }
            j = j + 1;
        }
        None
    }
}

/// The run-time state: the scope stack and what was printed.
struct Env {
    scopes: Vec<Scope>,
    output: String,
}

impl View for Env {
    type V = SpecEnv;

    closed spec fn view(&self) -> SpecEnv {
        SpecEnv { scopes: self.scopes@.map_values(|s: Scope| s@), output: self.output@ }
    }
}

/// The functions of a program: distinct names.
spec fn table_wf(fs: Seq<Function>) -> bool {
    forall|i: int, j: int|
        0 <= i < fs.len() && 0 <= j < fs.len() && i != j ==> #[trigger] fs[i].name@
            != #[trigger] fs[j].name@
}

spec fn defines(fs: Seq<Function>, name: Seq<char>) -> bool {
    exists|i: int| 0 <= i < fs.len() && #[trigger] fs[i].name@ == name
}

/// The function table of a list of functions.
spec fn fn_table(fs: Seq<Function>) -> FnTable {
    Map::new(
        |k: Seq<char>| defines(fs, k),
        |k: Seq<char>| fs[choose|i: int| 0 <= i < fs.len() && #[trigger] fs[i].name@ == k]@,
    )
}

proof fn lemma_fn_table_at(fs: Seq<Function>, i: int)
    requires
        table_wf(fs),
        0 <= i < fs.len(),
    ensures
        fn_table(fs).contains_key(fs[i].name@),
        fn_table(fs)[fs[i].name@] == fs[i]@,
{
    let k = fs[i].name@;
    assert(defines(fs, k));
    let j = choose|j: int| 0 <= j < fs.len() && #[trigger] fs[j].name@ == k;
    assert(j == i);
}

/// The index of the function called `name`.
fn find_function(fns: &Vec<Function>, name: &String) -> (r: Option<usize>)
    requires
        table_wf(fns@),
    ensures
        match r {
            Some(i) => i < fns@.len() && fns@[i as int].name@ == name@ && fn_table(fns@).contains_key(
                name@,
            ) && fn_table(fns@)[name@] == fns@[i as int]@,
            None => !fn_table(fns@).contains_key(name@),
        },
{
    let mut i: usize = 0;
    while i < fns.len()
        invariant
            i <= fns@.len(),
            table_wf(fns@),
            forall|k: int| 0 <= k < i ==> #[trigger] fns@[k].name@ != name@,
        decreases fns@.len() - i,
    {
        if fns[i].name == *name {
            proof {
                lemma_fn_table_at(fns@, i as int);
            }
            return Some(i);
        }
        i = i + 1;
    }
    None
}

/// The scope stack's scopes each have distinct names.
spec fn env_wf(scopes: Seq<Scope>) -> bool {
    forall|i: int| 0 <= i < scopes.len() ==> distinct_names(#[trigger] scopes[i].entries@)
}

enum ExecFlow {
    Continue,
    Return(Value),
}

impl View for ExecFlow {
    type V = SpecFlow;

    closed spec fn view(&self) -> SpecFlow {
        match self {
            ExecFlow::Continue => SpecFlow::Continue,
            ExecFlow::Return(v) => SpecFlow::Return(v@),
        }
    }
}

spec fn value_outcome(spec: Eval<SpecValue>, res: Result<Value, Failure>, env: SpecEnv) -> bool {
    match res {
        Ok(v) => spec == Ok::<(SpecEnv, SpecValue), SpecFailure>((env, v@)),
        Err(f) => spec == Err::<(SpecEnv, SpecValue), SpecFailure>(f@),
    }
}

spec fn flow_outcome(spec: Eval<SpecFlow>, res: Result<ExecFlow, Failure>, env: SpecEnv) -> bool {
    match res {
        Ok(fl) => spec == Ok::<(SpecEnv, SpecFlow), SpecFailure>((env, fl@)),
        Err(f) => spec == Err::<(SpecEnv, SpecFlow), SpecFailure>(f@),
    }
}

spec fn env_outcome(spec: Result<SpecEnv, SpecFailure>, res: Result<(), Failure>, env: SpecEnv) -> bool {
    match res {
        Ok(_) => spec == Ok::<SpecEnv, SpecFailure>(env),
        Err(f) => spec == Err::<SpecEnv, SpecFailure>(f@),
    }
}

impl Env {
    fn new() -> (e: Env)
        ensures
            e@ == empty_env(),
            env_wf(e.scopes@),
    {
        let e = Env { scopes: Vec::new(), output: String::new() };
        assert(e@.scopes =~= Seq::<Map<Seq<char>, SpecBinding>>::empty());
        e
    }

    fn push_scope(&mut self)
        requires
            env_wf(old(self).scopes@),
        ensures
            env_wf(final(self).scopes@),
            final(self)@ == push_scope(old(self)@),
    {
        let ghost before = self.scopes@;
        let scope = Scope { entries: Vec::new() };
        assert(scope@ =~= Map::<Seq<char>, SpecBinding>::empty());
        self.scopes.push(scope);
        assert(self@.scopes =~= before.map_values(|s: Scope| s@).push(Map::empty()));
    }

    fn pop_scope(&mut self)
        requires
            env_wf(old(self).scopes@),
        ensures
            env_wf(final(self).scopes@),
            final(self)@ == pop_scope(old(self)@),
    {
        let ghost before = self.scopes@;
        if self.scopes.len() > 0 {
            self.scopes.pop();
            assert(self@.scopes =~= before.map_values(|s: Scope| s@).drop_last());
        }
    }

    fn declare(&mut self, name: &String, value: Value, mutable: bool, span: Span) -> (res: Result<
        (),
        Failure,
    >)
        requires
            env_wf(old(self).scopes@),
        ensures
            env_wf(final(self).scopes@),
            env_outcome(declare(old(self)@, name@, value@, mutable, span), res, final(self)@),
            res is Err ==> final(self)@ == old(self)@,
    {
        let n = self.scopes.len();
        if n == 0 {
            return Err(error(text("internal error: no scope"), span));
        }
        let last = n - 1;
        if self.scopes[last].find(name).is_some() {
            return Err(
                error(quote("variable `", name.as_str(), "` already declared in this scope"), span),
            );
        }
        let ghost before = self.scopes@;
        let entry = Entry { name: name.clone(), binding: Binding { value, mutable } };
        let mut top = self.scopes.pop().unwrap();
        proof {
            lemma_scope_map_push(top.entries@, entry);
        }
        top.entries.push(entry);
        self.scopes.push(top);
        assert(self.scopes@ =~= before.update(last as int, top));
        assert(self@.scopes =~= before.map_values(|s: Scope| s@).update(
            last as int,
            before[last as int]@.insert(name@, SpecBinding { value: value@, mutable }),
        ));
        Ok(())
    }

    /// The index of the innermost scope that binds `name`.
    fn find_scope(&self, name: &String) -> (r: Option<(usize, usize)>)
        requires
            env_wf(self.scopes@),
        ensures
            match r {
                Some((i, j)) => find_scope(self@, name@) == Some(i as int) && i < self.scopes@.len()
                    && j < self.scopes@[i as int].entries@.len()
                    && self.scopes@[i as int].entries@[j as int].name@ == name@,
                None => find_scope(self@, name@) is None,
            },
    {
        let ghost sv = self@.scopes;
        let mut i = self.scopes.len();
        while i > 0
            invariant
                i <= self.scopes@.len(),
                sv == self@.scopes,
                env_wf(self.scopes@),
                find_scope(self@, name@) == innermost(sv, name@, i as int),
            decreases i,
        {
            match self.scopes[i - 1].find(name) {
                Some(j) => {
                    proof {
                        lemma_scope_map_at(self.scopes@[i - 1].entries@, j as int);
                    }
                    return Some((i - 1, j));
                },
                None => {},
            }
            i = i - 1;
        }
        None
    }

    fn lookup(&self, name: &String, span: Span) -> (res: Result<Value, Failure>)
        requires
            env_wf(self.scopes@),
        ensures
            match res {
                Ok(v) => lookup(self@, name@, span) == Ok::<SpecValue, SpecFailure>(v@),
                Err(f) => lookup(self@, name@, span) == Err::<SpecValue, SpecFailure>(f@),
            },
    {
        match self.find_scope(name) {
            Some((i, j)) => {
                proof {
                    lemma_scope_map_at(self.scopes@[i as int].entries@, j as int);
                }
                Ok(self.scopes[i].entries[j].binding.value.duplicate())
            },
            None => Err(error(quote("undefined variable `", name.as_str(), "`"), span)),
        }
    }

    fn assign(&mut self, name: &String, value: Value, span: Span) -> (res: Result<(), Failure>)
        requires
            env_wf(old(self).scopes@),
        ensures
            env_wf(final(self).scopes@),
            env_outcome(assign(old(self)@, name@, value@, span), res, final(self)@),
            res is Err ==> final(self)@ == old(self)@,
    {
        match self.find_scope(name) {
            Some((i, j)) => {
                proof {
                    lemma_scope_map_at(self.scopes@[i as int].entries@, j as int);
                }
                if !self.scopes[i].entries[j].binding.mutable {
                    return Err(
                        error(quote("cannot assign to immutable variable `", name.as_str(), "`"), span),
                    );
                }
                let ghost before = self.scopes@;
                let mut scope = self.scopes.remove(i);
                let entry = Entry { name: name.clone(), binding: Binding { value, mutable: true } };
                proof {
                    lemma_scope_map_update(scope.entries@, j as int, entry);
                }
                scope.entries.set(j, entry);
                self.scopes.insert(i, scope);
                assert(self.scopes@ =~= before.update(i as int, scope));
                assert(self@.scopes =~= before.map_values(|s: Scope| s@).update(
                    i as int,
                    before[i as int]@.insert(name@, SpecBinding { value: value@, mutable: true }),
                ));
                Ok(())
            },
            None => Err(error(quote("undefined variable `", name.as_str(), "`"), span)),
        }
    }
}

/// The views of a list of values.
spec fn values_view(vs: Seq<Value>) -> Seq<SpecValue> {
    vs.map_values(|v: Value| v@)
}

/// `==` of the language: the same variant and the same contents.
pub fn values_equal(a: &Value, b: &Value) -> (r: bool)
    ensures
        r == (a@ == b@),
{
    match (a, b) {
        (Value::Int(l), Value::Int(r)) => *l == *r,
        (Value::Bool(l), Value::Bool(r)) => *l == *r,
        (Value::String(l), Value::String(r)) => *l == *r,
        (Value::Unit, Value::Unit) => true,
        _ => false,
    }
}

/// The value has the function's declared result type.
fn check_return_type(func_name: &String, ty: TypeName, value: &Value, span: Span) -> (res: Result<
    (),
    Failure,
>)
    ensures
        match res {
            Ok(_) => type_matches(ty, value@),
            Err(f) => !type_matches(ty, value@) && f@ == runtime_error(
                "function `"@ + func_name@ + "` returned wrong type"@,
                span,
            ),
        },
{
    let ok = match (ty, value) {
        (TypeName::I64, Value::Int(_)) => true,
        (TypeName::Bool, Value::Bool(_)) => true,
        (TypeName::String, Value::String(_)) => true,
        (TypeName::Unit, Value::Unit) => true,
        _ => false,
    };
    if ok {
        Ok(())
    } else {
        Err(error(quote("function `", func_name.as_str(), "` returned wrong type"), span))
    }
}

/// The text of a binary operator.
fn operator_str(op: BinaryOp) -> (s: &'static str)
    ensures
        s@ == operator_text(op),
{
    match op {
        BinaryOp::Add => "+",
        BinaryOp::Sub => "-",
        BinaryOp::Mul => "*",
        BinaryOp::Div => "/",
        BinaryOp::Eq => "==",
        BinaryOp::Ne => "!=",
        BinaryOp::Lt => "<",
        BinaryOp::Le => "<=",
        BinaryOp::Gt => ">",
        BinaryOp::Ge => ">=",
        BinaryOp::And => "&&",
        BinaryOp::Or => "||",
    }
}

spec fn result_outcome(spec: Result<SpecValue, SpecFailure>, res: Result<Value, Failure>) -> bool {
    match res {
        Ok(v) => spec == Ok::<SpecValue, SpecFailure>(v@),
        Err(f) => spec == Err::<SpecValue, SpecFailure>(f@),
    }
}

/// A binary operator other than `&&` and `||`, applied to two values.
fn apply_binary_values(op: BinaryOp, l: Value, r: Value, span: Span) -> (res: Result<Value, Failure>)
    requires
        op != BinaryOp::And,
        op != BinaryOp::Or,
    ensures
        result_outcome(apply_binary(op, l@, r@, span), res),
{
    match op {
        BinaryOp::Add => match (l, r) {
            (Value::Int(a), Value::Int(b)) => match a.checked_add(b) {
                Some(c) => Ok(Value::Int(c)),
                None => Err(Failure::Overflow),
            },
            (Value::String(a), Value::String(b)) => {
                let mut c = a;
                c.append(b.as_str());
                Ok(Value::String(c))
            },
            _ => Err(error(text("`+` expects (i64, i64) or (string, string)"), span)),
        },
        BinaryOp::Eq => Ok(Value::Bool(values_equal(&l, &r))),
        BinaryOp::Ne => Ok(Value::Bool(!values_equal(&l, &r))),
        _ => {
            let (a, b) = expect_int_pair(l, r, span, op)?;
            match op {
                BinaryOp::Sub => match a.checked_sub(b) {
                    Some(c) => Ok(Value::Int(c)),
                    None => Err(Failure::Overflow),
                },
                BinaryOp::Mul => match a.checked_mul(b) {
                    Some(c) => Ok(Value::Int(c)),
                    None => Err(Failure::Overflow),
                },
                BinaryOp::Div => {
                    if b == 0 {
                        Err(error(text("division by zero"), span))
                    } else {
                        match a.checked_div(b) {
                            Some(c) => Ok(Value::Int(c)),
                            None => Err(Failure::Overflow),
                        }
                    }
                },
                BinaryOp::Lt => Ok(Value::Bool(a < b)),
                BinaryOp::Le => Ok(Value::Bool(a <= b)),
                BinaryOp::Gt => Ok(Value::Bool(a > b)),
                _ => Ok(Value::Bool(a >= b)),
            }
        },
    }
}

/// The two operands of `op`, which must both be `i64`.
fn expect_int_pair(left: Value, right: Value, span: Span, op: BinaryOp) -> (res: Result<
    (i64, i64),
    Failure,
>)
    ensures
        match res {
            Ok((a, b)) => left@ == SpecValue::Int(a) && right@ == SpecValue::Int(b),
            Err(f) => !(left@ is Int && right@ is Int) && f@ == runtime_error(expects_i64(op), span),
        },
{
    match (left, right) {
        (Value::Int(l), Value::Int(r)) => Ok((l, r)),
        _ => Err(error(quote("`", operator_str(op), "` expects i64"), span)),
    }
}

impl Env {
    /// The built-in `print`: one argument, shown on a line of its own.
    fn call_builtin_print(&mut self, args: Vec<Value>, span: Span) -> (res: Result<Value, Failure>)
        requires
            env_wf(old(self).scopes@),
        ensures
            env_wf(final(self).scopes@),
            value_outcome(print_builtin(old(self)@, values_view(args@), span), res, final(self)@),
            res is Err ==> final(self)@ == old(self)@,
    {
        if args.len() != 1 {
            return Err(error(text("`print` expects exactly 1 argument"), span));
        }
        let ghost before = self@;
        push_display(&mut self.output, &args[0]);
        self.output.push('\n');
        proof {
            reveal_strlit("\n");
        }
        assert(self@.output =~= before.output + display(args@[0]@) + "\n"@);
        Ok(Value::Unit)
    }
}

fn expect_bool(value: Value, span: Span, message: &str) -> (res: Result<bool, Failure>)
    ensures
        match res {
            Ok(b) => value@ == SpecValue::Bool(b),
            Err(f) => !(value@ is Bool) && f@ == runtime_error(message@, span),
        },
{
    match value {
        Value::Bool(b) => Ok(b),
        _ => Err(error(text(message), span)),
    }
}

fn expect_int(value: Value, span: Span, message: &str) -> (res: Result<i64, Failure>)
    ensures
        match res {
            Ok(v) => value@ == SpecValue::Int(v),
            Err(f) => !(value@ is Int) && f@ == runtime_error(message@, span),
        },
{
    match value {
        Value::Int(v) => Ok(v),
        _ => Err(error(text(message), span)),
    }
}

impl Env {
    fn eval_expr(&mut self, fns: &Vec<Function>, fuel: u64, expr: &Expr) -> (res: Result<
        Value,
        Failure,
    >)
        requires
            env_wf(old(self).scopes@),
            table_wf(fns@),
        ensures
            env_wf(final(self).scopes@),
            value_outcome(
                eval_expr(fn_table(fns@), fuel as nat, old(self)@, expr@),
                res,
                final(self)@,
            ),
        decreases fuel, 1int, expr, 2int,
    {
        match &expr.kind {
            ExprKind::Int(v) => Ok(Value::Int(*v)),
            ExprKind::Bool(b) => Ok(Value::Bool(*b)),
            ExprKind::String(v) => Ok(Value::String(v.clone())),
            ExprKind::Var(name) => self.lookup(name, expr.span),
            ExprKind::Unary { op, expr: inner } => {
                let value = self.eval_expr(fns, fuel, inner)?;
                match op {
                    UnaryOp::Not => {
                        let v = expect_bool(value, expr.span, "`!` expects bool")?;
                        Ok(Value::Bool(!v))
                    },
                    UnaryOp::Neg => {
                        let v = expect_int(value, expr.span, "unary `-` expects i64")?;
                        if v == i64::MIN {
                            Err(Failure::Overflow)
                        } else {
                            Ok(Value::Int(-v))
                        }
                    },
                }
            },
            ExprKind::Binary { .. } => self.eval_binary(fns, fuel, expr),
            ExprKind::Call { .. } => self.eval_call(fns, fuel, expr),
        }
    }
}

impl Env {
    /// A binary expression: `&&` and `||` evaluate their right operand only
    /// when the left one does not decide.
    fn eval_binary(&mut self, fns: &Vec<Function>, fuel: u64, expr: &Expr) -> (res: Result<
        Value,
        Failure,
    >)
        requires
            env_wf(old(self).scopes@),
            table_wf(fns@),
            expr.kind is Binary,
        ensures
            env_wf(final(self).scopes@),
            value_outcome(
                eval_binary(fn_table(fns@), fuel as nat, old(self)@, expr@),
                res,
                final(self)@,
            ),
        decreases fuel, 1int, expr, 1int,
    {
        match &expr.kind {
            ExprKind::Binary { left, op, right } => {
                let op = *op;
                let span = expr.span;
                match op {
                    BinaryOp::And => {
                        let lv = self.eval_expr(fns, fuel, left)?;
                        let lb = expect_bool(lv, span, "`&&` expects bool operands")?;
                        if !lb {
                            return Ok(Value::Bool(false));
                        }
                        let rv = self.eval_expr(fns, fuel, right)?;
                        let rb = expect_bool(rv, span, "`&&` expects bool operands")?;
                        Ok(Value::Bool(rb))
                    },
                    BinaryOp::Or => {
                        let lv = self.eval_expr(fns, fuel, left)?;
                        let lb = expect_bool(lv, span, "`||` expects bool operands")?;
                        if lb {
                            return Ok(Value::Bool(true));
                        }
                        let rv = self.eval_expr(fns, fuel, right)?;
                        let rb = expect_bool(rv, span, "`||` expects bool operands")?;
                        Ok(Value::Bool(rb))
                    },
                    _ => {
                        let left_value = self.eval_expr(fns, fuel, left)?;
                        let right_value = self.eval_expr(fns, fuel, right)?;
                        apply_binary_values(op, left_value, right_value, span)
                    },
                }
            },
            _ => Err(Failure::OutOfFuel),
        }
    }

    /// A call: the arguments left to right, then the function.
    #[verifier::loop_isolation(false)]
    fn eval_call(&mut self, fns: &Vec<Function>, fuel: u64, expr: &Expr) -> (res: Result<
        Value,
        Failure,
    >)
        requires
            env_wf(old(self).scopes@),
            table_wf(fns@),
            expr.kind is Call,
        ensures
            env_wf(final(self).scopes@),
            value_outcome(
                eval_expr(fn_table(fns@), fuel as nat, old(self)@, expr@),
                res,
                final(self)@,
            ),
        decreases fuel, 1int, expr, 1int,
    {
        match &expr.kind {
            ExprKind::Call { name, args } => {
                let ghost table = fn_table(fns@);
                let ghost views = exprs_view(args@);
                let ghost goal = eval_args(table, fuel as nat, self@, views, Seq::empty());
                proof {
                    lemma_exprs_view(args@);
                    assert(views.subrange(0, views.len() as int) =~= views);
                    assert(values_view(Seq::<Value>::empty()) =~= Seq::<SpecValue>::empty());
                }
                let mut evaluated: Vec<Value> = Vec::new();
                let mut i: usize = 0;
                while i < args.len()
                    invariant
                        i <= args@.len(),
                        env_wf(self.scopes@),
                        goal == eval_args(
                            table,
                            fuel as nat,
                            self@,
                            views.subrange(i as int, views.len() as int),
                            values_view(evaluated@),
                        ),
                    decreases args@.len() - i,
                {
                    let ghost rest = views.subrange(i as int, views.len() as int);
                    assert(rest[0] == args@[i as int]@);
                    let v = self.eval_expr(fns, fuel, &args[i])?;
                    proof {
                        assert(rest.subrange(1, rest.len() as int) =~= views.subrange(
                            i + 1,
                            views.len() as int,
                        ));
                    }
                    let ghost prev = evaluated@;
                    evaluated.push(v);
                    assert(values_view(evaluated@) =~= values_view(prev).push(v@));
                    i = i + 1;
                }
                assert(views.subrange(i as int, views.len() as int) =~= Seq::<SpecExpr>::empty());
                self.call_function(fns, fuel, name, evaluated, expr.span)
            },
            _ => Err(Failure::OutOfFuel),
        }
    }
}

/// Whether `name` is the built-in `print`.
fn is_print(name: &String) -> (r: bool)
    ensures
        r == (name@ == "print"@),
{
    *name == text("print")
}

impl Env {
    /// Calls `print` or a function of the program; the body runs in a new
    /// scope with one unit less of the budget.
    #[verifier::loop_isolation(false)]
    fn call_function(
        &mut self,
        fns: &Vec<Function>,
        fuel: u64,
        name: &String,
        args: Vec<Value>,
        call_span: Span,
    ) -> (res: Result<Value, Failure>)
        requires
            env_wf(old(self).scopes@),
            table_wf(fns@),
        ensures
            env_wf(final(self).scopes@),
            value_outcome(
                call_named(fn_table(fns@), fuel as nat, old(self)@, name@, values_view(args@), call_span),
                res,
                final(self)@,
            ),
            name@ != "print"@ && !(fn_table(fns@).contains_key(name@) && args@.len()
                == fn_table(fns@)[name@].params.len() && fuel > 0) ==> final(self)@ == old(self)@,
            name@ == "print"@ && args@.len() != 1 ==> final(self)@ == old(self)@,
        decreases fuel, 0int, call_span, 0int,
    {
        if is_print(name) {
            return self.call_builtin_print(args, call_span);
        }
        let index = match find_function(fns, name) {
            Some(i) => i,
            None => {
                return Err(error(quote("undefined function `", name.as_str(), "`"), call_span));
            },
        };
        let func = &fns[index];
        let ghost table = fn_table(fns@);
        let ghost params = func@.params;
        let ghost vals = values_view(args@);
        assert(params.len() == func.params@.len());
        if args.len() != func.params.len() {
            let mut message = quote("function `", name.as_str(), "` expects ");
            push_decimal(&mut message, func.params.len() as u64);
            message.append(" args but got ");
            push_decimal(&mut message, args.len() as u64);
            assert(message@ =~= arity_message(name@, params.len(), vals.len()));
            return Err(error(message, call_span));
        }
        if fuel == 0 {
            return Err(Failure::OutOfFuel);
        }
        self.push_scope();
        let ghost goal = bind_params(self@, params, vals);
        proof {
            assert(params.subrange(0, params.len() as int) =~= params);
            assert(vals.subrange(0, vals.len() as int) =~= vals);
        }
        let mut i: usize = 0;
        while i < args.len()
            invariant
                i <= args@.len(),
                env_wf(self.scopes@),
                goal == bind_params(
                    self@,
                    params.subrange(i as int, params.len() as int),
                    vals.subrange(i as int, vals.len() as int),
                ),
            decreases args@.len() - i,
        {
            let ghost ps = params.subrange(i as int, params.len() as int);
            let ghost vs = vals.subrange(i as int, vals.len() as int);
            assert(ps[0] == func.params@[i as int]@);
            assert(vs[0] == args@[i as int]@);
            let param = &func.params[i];
            self.declare(&param.name, args[i].duplicate(), false, param.span)?;
            assert(ps.subrange(1, ps.len() as int) =~= params.subrange(i + 1, params.len() as int));
            assert(vs.subrange(1, vs.len() as int) =~= vals.subrange(i + 1, vals.len() as int));
            i = i + 1;
        }
        assert(params.subrange(i as int, params.len() as int).len() == 0);
        let flow = self.execute_stmt(fns, fuel - 1, &func.body)?;
        self.pop_scope();
        match flow {
            ExecFlow::Return(value) => {
                check_return_type(name, func.return_type, &value, call_span)?;
                Ok(value)
            },
            ExecFlow::Continue => Err(
                error(quote("function `", name.as_str(), "` ended without `return`"), func.span),
            ),
        }
    }

    #[verifier::loop_isolation(false)]
    fn execute_stmt(&mut self, fns: &Vec<Function>, fuel: u64, stmt: &Stmt) -> (res: Result<
        ExecFlow,
        Failure,
    >)
        requires
            env_wf(old(self).scopes@),
            table_wf(fns@),
        ensures
            env_wf(final(self).scopes@),
            flow_outcome(
                exec_stmt(fn_table(fns@), fuel as nat, old(self)@, stmt@),
                res,
                final(self)@,
            ),
        decreases fuel, 2int, stmt, 1int,
    {
        let ghost table = fn_table(fns@);
        match &stmt.kind {
            StmtKind::Let { name, mutable, value } => {
                let evaluated = self.eval_expr(fns, fuel, value)?;
                self.declare(name, evaluated, *mutable, stmt.span)?;
                Ok(ExecFlow::Continue)
            },
            StmtKind::Assign { name, value } => {
                let evaluated = self.eval_expr(fns, fuel, value)?;
                self.assign(name, evaluated, stmt.span)?;
                Ok(ExecFlow::Continue)
            },
            StmtKind::ExprStmt(expr) => {
                self.eval_expr(fns, fuel, expr)?;
                Ok(ExecFlow::Continue)
            },
            StmtKind::Block(stmts) => {
                self.push_scope();
                let ghost views = stmts_view(stmts@);
                let ghost goal = exec_block(table, fuel as nat, self@, views);
                proof {
                    lemma_stmts_view(stmts@);
                    assert(views.subrange(0, views.len() as int) =~= views);
                }
                let mut i: usize = 0;
                while i < stmts.len()
                    invariant
                        i <= stmts@.len(),
                        env_wf(self.scopes@),
                        goal == exec_block(
                            table,
                            fuel as nat,
                            self@,
                            views.subrange(i as int, views.len() as int),
                        ),
                    decreases stmts@.len() - i,
                {
                    let ghost rest = views.subrange(i as int, views.len() as int);
                    assert(rest[0] == stmts@[i as int]@);
                    let flow = self.execute_stmt(fns, fuel, &stmts[i])?;
                    if let ExecFlow::Return(value) = flow {
                        self.pop_scope();
                        return Ok(ExecFlow::Return(value));
                    }
                    assert(rest.subrange(1, rest.len() as int) =~= views.subrange(
                        i + 1,
                        views.len() as int,
                    ));
                    i = i + 1;
                }
                assert(views.subrange(i as int, views.len() as int).len() == 0);
                self.pop_scope();
                Ok(ExecFlow::Continue)
            },
            StmtKind::If { cond, then_branch, else_branch } => {
                let cond_value = self.eval_expr(fns, fuel, cond)?;
                let cond_bool = expect_bool(cond_value, cond.span, "if condition must be bool")?;
                if cond_bool {
                    self.execute_stmt(fns, fuel, then_branch)
                } else {
                    match else_branch {
                        Some(else_stmt) => self.execute_stmt(fns, fuel, else_stmt),
                        None => Ok(ExecFlow::Continue),
                    }
                }
            },
            StmtKind::While { cond, body } => {
                let ghost goal = exec_stmt(table, fuel as nat, self@, stmt@);
                let mut remaining: u64 = fuel;
                loop
                    invariant
                        remaining <= fuel,
                        env_wf(self.scopes@),
                        goal == exec_stmt(table, remaining as nat, self@, stmt@),
                    decreases remaining,
                {
                    if remaining == 0 {
                        return Err(Failure::OutOfFuel);
                    }
                    let cond_value = self.eval_expr(fns, remaining, cond)?;
                    let cond_bool = expect_bool(
                        cond_value,
                        cond.span,
                        "while condition must be bool",
                    )?;
                    if !cond_bool {
                        return Ok(ExecFlow::Continue);
                    }
                    let flow = self.execute_stmt(fns, remaining, body)?;
                    if let ExecFlow::Return(value) = flow {
                        return Ok(ExecFlow::Return(value));
                    }
                    remaining = remaining - 1;
                }
            },
            StmtKind::Return(expr) => {
                let value = self.eval_expr(fns, fuel, expr)?;
                Ok(ExecFlow::Return(value))
            },
        }
    }
}

proof fn lemma_fn_table_push(fs: Seq<Function>, f: Function)
    requires
        table_wf(fs),
        !fn_table(fs).contains_key(f.name@),
    ensures
        table_wf(fs.push(f)),
        fn_table(fs.push(f)) =~= fn_table(fs).insert(f.name@, f@),
{
    let s = fs.push(f);
    assert forall|i: int, j: int|
        0 <= i < s.len() && 0 <= j < s.len() && i != j implies #[trigger] s[i].name@
        != #[trigger] s[j].name@ by {
        if i == fs.len() {
            assert(!defines(fs, f.name@));
            assert(fs[j].name@ != f.name@);
        } else if j == fs.len() {
            assert(!defines(fs, f.name@));
            assert(fs[i].name@ != f.name@);
        }
    }
    assert forall|k: Seq<char>| #[trigger] fn_table(s).contains_key(k) <==> fn_table(fs).insert(
        f.name@,
        f@,
    ).contains_key(k) by {
        if defines(s, k) {
            let i = choose|i: int| 0 <= i < s.len() && #[trigger] s[i].name@ == k;
            if i < fs.len() {
                assert(fs[i].name@ == k);
                assert(defines(fs, k));
            }
        }
        if defines(fs, k) {
            let i = choose|i: int| 0 <= i < fs.len() && #[trigger] fs[i].name@ == k;
            assert(s[i].name@ == k);
        }
        if k == f.name@ {
            assert(s[fs.len() as int].name@ == k);
        }
    }
    assert forall|k: Seq<char>| #[trigger] fn_table(s).contains_key(k) implies fn_table(s)[k]
        == fn_table(fs).insert(f.name@, f@)[k] by {
        let i = choose|i: int| 0 <= i < s.len() && #[trigger] s[i].name@ == k;
        lemma_fn_table_at(s, i);
        if i < fs.len() {
            lemma_fn_table_at(fs, i);
        }
    }
}

/// Whether one of the functions before the `i`-th has its name.
fn defined_before(fs: &Vec<Function>, i: usize) -> (r: bool)
    requires
        i < fs@.len(),
    ensures
        r == fn_table(fs@.take(i as int)).contains_key(fs@[i as int].name@),
{
    let ghost before = fs@.take(i as int);
    let mut j: usize = 0;
    while j < i
        invariant
            j <= i,
            i < fs@.len(),
            before == fs@.take(i as int),
            forall|k: int| 0 <= k < j ==> #[trigger] fs@[k].name@ != fs@[i as int].name@,
        decreases i - j,
    {
        if fs[j].name == fs[i].name {
            assert(before[j as int].name@ == fs@[i as int].name@);
            assert(defines(before, fs@[i as int].name@));
            return true;
        }
        j = j + 1;
    }
    assert(!defines(before, fs@[i as int].name@)) by {
        assert forall|k: int| 0 <= k < before.len() implies #[trigger] before[k].name@
            != fs@[i as int].name@ by {
            assert(before[k] == fs@[k]);
        }
    }
    false
}

/// Runs programs: registers their functions and calls `main`.
pub struct Interpreter {
    functions: Vec<Function>,
    env: Env,
}

impl Interpreter {
    /// The functions of the last program run, by name.
    pub closed spec fn function_table(&self) -> FnTable {
        fn_table(self.functions@)
    }

    /// The run-time state: scopes and output.
    pub closed spec fn state(&self) -> SpecEnv {
        self.env@
    }

    pub fn new() -> (interpreter: Interpreter)
        ensures
            interpreter.function_table() == Map::<Seq<char>, SpecFunction>::empty(),
            interpreter.state() == empty_env(),
    {
        let interpreter = Interpreter { functions: Vec::new(), env: Env::new() };
        assert(interpreter.function_table() =~= Map::<Seq<char>, SpecFunction>::empty());
        interpreter
    }

    /// Runs `program` with the full budget, and reports every way the run can
    /// stop: a run-time error, an `i64` overflow, or the budget used up.
    #[verifier::loop_isolation(false)]
    pub fn run_program_checked(&mut self, program: Program) -> (res: Result<
        ExecutionResult,
        Failure,
    >)
        ensures
            match res {
                Ok(r) => run_spec(program@, budget()) == Ok::<(i64, Seq<char>), SpecFailure>(
                    (r.exit_code, r.output@),
                ),
                Err(f) => run_spec(program@, budget()) == Err::<(i64, Seq<char>), SpecFailure>(
                    f@,
                ),
            },
            register(program@.functions) matches Ok(table) ==> final(self).function_table()
                == table,
            res matches Ok(r) ==> final(self).state() == (SpecEnv {
                scopes: Seq::empty(),
                output: r.output@,
            }),
    {
        self.env = Env::new();
        let functions = program.functions;
        let ghost views = functions_view(functions@);
        let n = functions.len();
        proof {
            assert(functions@.take(0) =~= Seq::<Function>::empty());
            assert(fn_table(functions@.take(0)) =~= Map::<Seq<char>, SpecFunction>::empty());
            assert(views.subrange(0, views.len() as int) =~= views);
        }
        let mut i: usize = 0;
        while i < n
            invariant
                i <= n,
                n == functions@.len(),
                views == functions_view(functions@),
                env_wf(self.env.scopes@),
                table_wf(functions@.take(i as int)),
                register(views) == register_from(
                    fn_table(functions@.take(i as int)),
                    views.subrange(i as int, views.len() as int),
                ),
            decreases n - i,
        {
            let ghost rest = views.subrange(i as int, views.len() as int);
            assert(rest[0] == functions@[i as int]@);
            if defined_before(&functions, i) {
                let f = &functions[i];
                return Err(
                    Failure::Error(
                        RuntimeError::new(
                            quote("duplicate function `", f.name.as_str(), "`"),
                            f.span,
                        ),
                    ),
                );
            }
            proof {
                lemma_fn_table_push(functions@.take(i as int), functions@[i as int]);
                assert(functions@.take(i + 1) =~= functions@.take(i as int).push(
                    functions@[i as int],
                ));
                assert(rest.subrange(1, rest.len() as int) =~= views.subrange(
                    i + 1,
                    views.len() as int,
                ));
            }
            i = i + 1;
        }
        proof {
            assert(functions@.take(n as int) =~= functions@);
            assert(views.subrange(n as int, views.len() as int).len() == 0);
        }
        self.functions = functions;
        let main_name = text("main");
        let index = match find_function(&self.functions, &main_name) {
            Some(index) => index,
            None => {
                return Err(error(text("function `main` is not defined"), Span::new(1, 1)));
            },
        };
        let main_span = self.functions[index].span;
        let main_value = self.env.call_function(
            &self.functions,
            u64::MAX,
            &main_name,
            Vec::new(),
            main_span,
        )?;
        proof {
            lemma_call_frame(
                fn_table(self.functions@),
                u64::MAX as nat,
                empty_env(),
                "main"@,
                Seq::empty(),
                main_span,
            );
            assert(self.env@.scopes =~= Seq::<Map<Seq<char>, SpecBinding>>::empty());
        }
        match main_value {
            Value::Int(exit_code) => Ok(ExecutionResult { exit_code, output: self.env.output.clone() }),
            _ => Err(error(text("`main` must return i64"), main_span)),
        }
    }

    /// Runs `program`: registers its functions, calls `main` and returns its
    /// result, which must be an `i64`, with everything printed.  The program
    /// must not overflow `i64` arithmetic, and must finish.
    pub fn run_program(&mut self, program: Program) -> (res: Result<ExecutionResult, RuntimeError>)
        requires
            run_spec(program@, budget()) is Ok || run_spec(program@, budget()) matches Err(
                SpecFailure::Error(_),
            ),
        ensures
            match res {
                Ok(r) => run_spec(program@, budget()) == Ok::<(i64, Seq<char>), SpecFailure>(
                    (r.exit_code, r.output@),
                ),
                Err(e) => run_spec(program@, budget()) == Err::<(i64, Seq<char>), SpecFailure>(
                    SpecFailure::Error(e@),
                ),
            },
            register(program@.functions) matches Ok(table) ==> final(self).function_table()
                == table,
            res matches Ok(r) ==> final(self).state() == (SpecEnv {
                scopes: Seq::empty(),
                output: r.output@,
            }),
    {
        match self.run_program_checked(program) {
            Ok(result) => Ok(result),
            Err(Failure::Error(e)) => Err(e),
            Err(_) => {
                // Overflow and an exhausted budget are excluded by the precondition.
                proof {
                    assert(false);
                }
                Err(RuntimeError::new(text("unreachable"), Span::new(1, 1)))
            },
        }
    }
}

} // verus!
