//! The evaluator: a stack machine that runs a program one step at a time.
//!
//! The machine never prints, reads or computes with floating-point
//! numbers. Each step hands its driver an [`Action`]; the driver carries it
//! out and steps again, handing back the answer where one was asked for.

use vstd::prelude::*;
use crate::ast::{
    clone_names, clone_statements, exprs_model, kind_model, names_model, statement_kind_model,
    statements_model, BinaryOp, Expr, ExprKind, ExprKindModel, Literal, LiteralModel, Program,
    Statement, StatementKind,
};
use crate::debugger::{command_spec, DebugReply, Debugger};
use crate::number::int_to_text;
use crate::semantics::{
    below, bind, bracketed, consumes, eval_expr_spec, evals, execs, execute_statement_spec,
    joined, lemma_balanced_execs, lemma_resume_keeps_wf, lemma_step_keeps_wf, resume_spec,
    return_name, step_spec, top, tops, ActionModel, EvalError, FunctionModel, RequestModel,
    State, TaskModel,
};
use crate::table::{lemma_vars_insert, vars_model, Table};

verus! {

/// A registered function: its parameter names and its body.
pub struct Function {
    pub args: Vec<String>,
    pub body: Vec<Statement>,
}

impl View for Function {
    type V = FunctionModel;

    open spec fn view(&self) -> FunctionModel {
        FunctionModel { args: names_model(self.args), body: statements_model(self.body) }
    }
}

impl Clone for Function {
    fn clone(&self) -> (r: Self)
        ensures
            r@ == self@,
    {
        Function { args: clone_names(&self.args), body: clone_statements(&self.body) }
    }
}

/// Numeric work that the machine asks its driver to do.
#[derive(Debug, PartialEq, Eq)]
pub enum NumericRequest {
    /// Read the text as a 64-bit floating-point number and render it.
    Render(String),
    /// Read both texts as 64-bit floating-point numbers, apply the
    /// operator, and render the result.
    Apply(BinaryOp, String, String),
}

impl View for NumericRequest {
    type V = RequestModel;

    open spec fn view(&self) -> RequestModel {
        match self {
            NumericRequest::Render(text) => RequestModel::Render(text@),
            NumericRequest::Apply(op, left, right) => RequestModel::Apply(*op, left@, right@),
        }
    }
}

impl Clone for NumericRequest {
    fn clone(&self) -> (r: Self)
        ensures
            r@ == self@,
    {
        match self {
            NumericRequest::Render(text) => NumericRequest::Render(text.clone()),
            NumericRequest::Apply(op, left, right) => NumericRequest::Apply(
                *op,
                left.clone(),
                right.clone(),
            ),
        }
    }
}

/// What the machine asks of its driver after a step.
#[derive(Debug, PartialEq, Eq)]
pub enum Action {
    /// Nothing: step again.
    Continue,
    /// The statement on top is about to run: the debugger may look.
    Step,
    /// Write this line.
    Print(String),
    /// Do this numeric work and hand the result back.
    Numeric(NumericRequest),
    /// The program has ended.
    Done,
    /// The run has stopped on this error.
    Fatal(EvalError),
}

impl View for Action {
    type V = ActionModel;

    open spec fn view(&self) -> ActionModel {
        match self {
            Action::Continue => ActionModel::Continue,
            Action::Step => ActionModel::Step,
            Action::Print(line) => ActionModel::Print(line@),
            Action::Numeric(q) => ActionModel::Numeric(q@),
            Action::Done => ActionModel::Done,
            Action::Fatal(e) => ActionModel::Fatal(*e),
        }
    }
}

/// The model of an answer to a numeric request.
pub open spec fn answer_model(answer: Option<String>) -> Option<Seq<char>> {
    match answer {
        Some(v) => Some(v@),
        None => None,
    }
}

/// The mapping from names to function models that a table of functions
/// stands for.
pub open spec fn funs_model(t: Table<Function>) -> Map<Seq<char>, FunctionModel> {
    t.model().map_values(|f: Function| f@)
}

/// A task on the work stack.
pub enum Task {
    Top(Statement),
    Exec(Statement),
    Eval(Expr),
    Binary(BinaryOp),
    Array(usize),
    Bind(String),
    Print(usize),
    Discard,
    Call(Function, usize),
    Return(Table<String>),
}

impl View for Task {
    type V = TaskModel;

    open spec fn view(&self) -> TaskModel {
        match self {
            Task::Top(s) => TaskModel::Top(s@),
            Task::Exec(s) => TaskModel::Exec(s@),
            Task::Eval(e) => TaskModel::Eval(e@),
            Task::Binary(op) => TaskModel::Binary(*op),
            Task::Array(n) => TaskModel::Array(*n as nat),
            Task::Bind(name) => TaskModel::Bind(name@),
            Task::Print(n) => TaskModel::Print(*n as nat),
            Task::Discard => TaskModel::Discard,
            Task::Call(f, n) => TaskModel::Call(f@, *n as nat),
            Task::Return(saved) => TaskModel::Return(vars_model(*saved)),
        }
    }
}

/// The models of the tasks in `v`, in order.
pub open spec fn tasks_model(v: Seq<Task>) -> Seq<TaskModel> {
    Seq::new(v.len(), |i: int| v[i]@)
}

/// Whether every mapping saved on the work stack is well formed.
pub open spec fn saved_wf(v: Seq<Task>) -> bool {
    forall|i: int| 0 <= i < v.len() ==> (#[trigger] v[i] matches Task::Return(t) ==> t.wf())
}

/// The texts of `parts` joined by a comma and a space.
pub fn join(parts: &Vec<String>) -> (r: String)
    ensures
        r@ == joined(names_model(*parts)),
{
    let mut r = String::new();
    let ghost all = names_model(*parts);
    let mut i: usize = 0;
    assert(all.take(0) == Seq::<Seq<char>>::empty());
    while i < parts.len()
        invariant
            i <= parts.len(),
            all == names_model(*parts),
            r@ == joined(all.take(i as int)),
        decreases parts.len() - i,
    {
        assert(all.take(i + 1).drop_last() == all.take(i as int));
        assert(all.take(i + 1).last() == parts[i as int]@);
        if i > 0 {
            r.append(", ");
            proof {
                reveal_strlit(", ");
                assert(", "@ == seq![',', ' ']);
            }
        } else {
            assert(all.take(1)[0] == parts[0]@);
        }
        r.append(parts[i].as_str());
        i += 1;
    }
    assert(all.take(i as int) == all);
    r
}

/// The texts of `parts` joined by a comma and a space, in square brackets.
pub fn bracket(parts: &Vec<String>) -> (r: String)
    ensures
        r@ == bracketed(names_model(*parts)),
{
    let mut r = String::new();
    proof {
        reveal_strlit("[");
        reveal_strlit("]");
        assert("["@ == seq!['[']);
        assert("]"@ == seq![']']);
    }
    r.append("[");
    let inside = join(parts);
    r.append(inside.as_str());
    r.append("]");
    r
}

/// Takes the last `n` values off `values`, in order.
fn take_top(values: &mut Vec<String>, n: usize) -> (r: Vec<String>)
    requires
        n <= old(values).len(),
    ensures
        names_model(r) == top(names_model(*old(values)), n as nat),
        names_model(*final(values)) == below(names_model(*old(values)), n as nat),
        final(values).len() == old(values).len() - n,
        r.len() == n,
{
    let at = values.len() - n;
    let r = values.split_off(at);
    assert(names_model(r) =~= top(names_model(*old(values)), n as nat));
    assert(names_model(*values) =~= below(names_model(*old(values)), n as nat));
    r
}

/// Registering a function in a table binds its model in the table's model.
pub proof fn lemma_funs_insert(
    before: Table<Function>,
    after: Table<Function>,
    k: Seq<char>,
    f: Function,
)
    requires
        after.model() == before.model().insert(k, f),
    ensures
        funs_model(after) == funs_model(before).insert(k, f@),
{
    assert(funs_model(after) =~= funs_model(before).insert(k, f@));
}

/// Puts tasks on the work stack that evaluate `es` from the first to the
/// last.
fn schedule_evals(tasks: &mut Vec<Task>, es: Vec<Expr>)
    requires
        saved_wf(old(tasks)@),
    ensures
        tasks_model(final(tasks)@) == tasks_model(old(tasks)@) + evals(exprs_model(es)),
        saved_wf(final(tasks)@),
{
    let mut es = es;
    let ghost all = exprs_model(es);
    let ghost base = tasks_model(tasks@);
    assert(tasks_model(tasks@) =~= base + evals(all).take(0));
    while es.len() > 0
        invariant
            es.len() <= all.len(),
            exprs_model(es) == all.take(es.len() as int),
            tasks_model(tasks@) == base + evals(all).take(all.len() - es.len()),
            saved_wf(tasks@),
        decreases es.len(),
    {
        let ghost before = es;
        let ghost stack = tasks@;
        match es.pop() {
            Some(e) => {
                assert(e@ == all[before.len() - 1]) by {
                    assert(exprs_model(before)[before.len() - 1] == e@);
                }
                assert(exprs_model(es) =~= all.take(es.len() as int)) by {
                    assert forall|i: int| 0 <= i < es.len() implies exprs_model(es)[i] == all[i] by {
                        assert(exprs_model(before)[i] == all[i]);
                    }
                }
                tasks.push(Task::Eval(e));
                assert(tasks_model(tasks@) =~= tasks_model(stack).push(TaskModel::Eval(e@)));
                assert(tasks_model(tasks@) =~= base + evals(all).take(all.len() - es.len()));
            },
            None => {},
        }
    }
    assert(evals(all).take(all.len() as int) == evals(all));
}

/// Puts tasks on the work stack that execute `ss` from the first to the
/// last; as top-level statements, each announced first, if `announce`.
fn schedule_statements(tasks: &mut Vec<Task>, ss: Vec<Statement>, announce: bool)
    requires
        saved_wf(old(tasks)@),
    ensures
        tasks_model(final(tasks)@) == tasks_model(old(tasks)@) + (if announce {
            tops(statements_model(ss))
        } else {
            execs(statements_model(ss))
        }),
        saved_wf(final(tasks)@),
{
    let mut ss = ss;
    let ghost all = statements_model(ss);
    let ghost base = tasks_model(tasks@);
    let ghost target = if announce {
        tops(all)
    } else {
        execs(all)
    };
    assert(tasks_model(tasks@) =~= base + target.take(0));
    while ss.len() > 0
        invariant
            ss.len() <= all.len(),
            target == (if announce {
                tops(all)
            } else {
                execs(all)
            }),
            statements_model(ss) == all.take(ss.len() as int),
            tasks_model(tasks@) == base + target.take(all.len() - ss.len()),
            saved_wf(tasks@),
        decreases ss.len(),
    {
        let ghost before = ss;
        let ghost stack = tasks@;
        match ss.pop() {
            Some(s) => {
                assert(s@ == all[before.len() - 1]) by {
                    assert(statements_model(before)[before.len() - 1] == s@);
                }
                assert(statements_model(ss) =~= all.take(ss.len() as int)) by {
                    assert forall|i: int| 0 <= i < ss.len() implies statements_model(ss)[i]
                        == all[i] by {
                        assert(statements_model(before)[i] == all[i]);
                    }
                }
                let task = if announce {
                    Task::Top(s)
                } else {
                    Task::Exec(s)
                };
                tasks.push(task);
                assert(tasks_model(tasks@) =~= tasks_model(stack).push(task@));
                assert(tasks_model(tasks@) =~= base + target.take(all.len() - ss.len()));
            },
            None => {},
        }
    }
    assert(target.take(all.len() as int) == target);
}

/// A fresh mapping that binds the first `n` of `params` to `values`.
fn bind_values(params: &Vec<String>, values: &Vec<String>, n: usize) -> (r: Table<String>)
    requires
        n <= params.len(),
        values.len() == n,
    ensures
        r.wf(),
        vars_model(r) == bind(names_model(*params).take(n as int), names_model(*values)),
{
    let mut r: Table<String> = Table::new();
    let ghost names = names_model(*params).take(n as int);
    let ghost texts = names_model(*values);
    let mut i: usize = 0;
    assert(names.take(0) == Seq::<Seq<char>>::empty());
    assert(vars_model(r) =~= Map::<Seq<char>, Seq<char>>::empty());
    while i < n
        invariant
            i <= n <= params.len(),
            values.len() == n,
            names == names_model(*params).take(n as int),
            texts == names_model(*values),
            r.wf(),
            vars_model(r) == bind(names.take(i as int), texts),
        decreases n - i,
    {
        let ghost before = r;
        let value = values[i].clone();
        r.insert(params[i].clone(), value);
        proof {
            lemma_vars_insert(before, r, params[i as int]@, value);
            assert(names.take(i + 1).drop_last() == names.take(i as int));
            assert(names.take(i + 1).last() == params[i as int]@);
        }
        i += 1;
    }
    assert(names.take(n as int) == names);
    r
}

/// The evaluator's state: the variables, the functions, the debugger, and
/// the machine's two stacks.
pub struct Runtime {
    variables: Table<String>,
    functions: Table<Function>,
    debugger: Debugger,
    tasks: Vec<Task>,
    values: Vec<String>,
    pending: Option<NumericRequest>,
    halted: Option<EvalError>,
}

impl View for Runtime {
    type V = State;

    closed spec fn view(&self) -> State {
        State {
            variables: vars_model(self.variables),
            functions: funs_model(self.functions),
            tasks: tasks_model(self.tasks@),
            values: names_model(self.values),
            pending: match self.pending {
                Some(q) => Some(q@),
                None => None,
            },
            halted: self.halted,
        }
    }
}

impl Runtime {
    /// The debugger that the driver consults before each top-level
    /// statement.
    pub closed spec fn debugger(&self) -> Debugger {
        self.debugger
    }

    /// Whether the tables are well formed, those saved on the work stack
    /// included.
    pub closed spec fn tables_wf(&self) -> bool {
        &&& self.variables.wf()
        &&& self.functions.wf()
        &&& saved_wf(self.tasks@)
    }

    /// Whether the runtime is well formed: its tables are, and every task
    /// will find its values.
    pub closed spec fn wf(&self) -> bool {
        self.tables_wf() && self@.wf()
    }

    /// A runtime with nothing bound and nothing to do.
    pub fn new() -> (r: Self)
        ensures
            r.wf(),
            r@ == State::initial(),
            !r.debugger().enable,
            r.debugger().breakpoints@ == Seq::<usize>::empty(),
            r.debugger().current_line == 0,
    {
        let r = Runtime {
            variables: Table::new(),
            functions: Table::new(),
            debugger: Debugger::new(),
            tasks: Vec::new(),
            values: Vec::new(),
            pending: None,
            halted: None,
        };
        assert(r@.variables =~= Map::<Seq<char>, Seq<char>>::empty());
        assert(r@.functions =~= Map::<Seq<char>, FunctionModel>::empty());
        assert(r@.tasks =~= Seq::<TaskModel>::empty());
        assert(r@.values =~= Seq::<Seq<char>>::empty());
        r
    }

    /// Stops the run on `e`.
    fn fail(&mut self, e: EvalError) -> (a: Action)
        requires
            old(self).tables_wf(),
        ensures
            final(self).tables_wf(),
            (final(self)@, a@) == old(self)@.fail(e),
            final(self).debugger() == old(self).debugger(),
    {
        self.halted = Some(e);
        Action::Fatal(e)
    }

    /// States the request `q` and waits for its answer.
    fn ask(&mut self, q: NumericRequest) -> (a: Action)
        requires
            old(self).tables_wf(),
        ensures
            final(self).tables_wf(),
            (final(self)@, a@) == old(self)@.ask(q@),
            final(self).debugger() == old(self).debugger(),
    {
        let a = Action::Numeric(q.clone());
        self.pending = Some(q);
        a
    }

    /// Pushes `v` on the value stack.
    fn push(&mut self, v: String)
        requires
            old(self).tables_wf(),
        ensures
            final(self).tables_wf(),
            final(self)@ == old(self)@.push(v@),
            final(self).debugger() == old(self).debugger(),
    {
        self.values.push(v);
        assert(names_model(self.values) =~= names_model(old(self).values).push(v@));
    }

    /// Puts one task on the work stack.
    fn schedule(&mut self, t: Task)
        requires
            old(self).tables_wf(),
            t matches Task::Return(saved) ==> saved.wf(),
        ensures
            final(self).tables_wf(),
            final(self)@ == old(self)@.schedule(seq![t@]),
            final(self).debugger() == old(self).debugger(),
    {
        self.tasks.push(t);
        assert(tasks_model(self.tasks@) =~= tasks_model(old(self).tasks@) + seq![t@]);
    }

    /// One step on an expression, which has just been taken off the work
    /// stack.
    fn eval_expr(&mut self, expr: Expr) -> (a: Action)
        requires
            old(self).tables_wf(),
        ensures
            final(self).tables_wf(),
            (final(self)@, a@) == eval_expr_spec(old(self)@, expr@),
            final(self).debugger() == old(self).debugger(),
    {
        let ghost model = expr@;
        let ghost kind = kind_model(expr.kind);
        assert(model.kind == kind);
        match expr.kind {
            ExprKind::Literal(Literal::Int(n)) => {
                assert(kind == ExprKindModel::Literal(
                    LiteralModel::Int(n),
                ));
                self.push(int_to_text(n));
                Action::Continue
            },
            ExprKind::Literal(Literal::Float(text)) => {
                assert(kind == ExprKindModel::Literal(
                    LiteralModel::Float(text@),
                ));
                self.ask(NumericRequest::Render(text))
            },
            ExprKind::Literal(Literal::String(text)) => {
                assert(kind == ExprKindModel::Literal(
                    LiteralModel::String(text@),
                ));
                self.push(text);
                Action::Continue
            },
            ExprKind::Literal(Literal::Array(elements)) => {
                assert(kind == ExprKindModel::Literal(
                    LiteralModel::Array(exprs_model(elements)),
                ));
                let n = elements.len();
                self.tasks.push(Task::Array(n));
                assert(tasks_model(self.tasks@) =~= tasks_model(old(self).tasks@) + seq![
                    TaskModel::Array(n as nat),
                ]);
                schedule_evals(&mut self.tasks, elements);
                assert(tasks_model(self.tasks@) =~= tasks_model(old(self).tasks@) + (seq![
                    TaskModel::Array(n as nat),
                ] + evals(exprs_model(elements))));
                Action::Continue
            },
            ExprKind::Variable(name) => {
                match self.variables.get(&name) {
                    Some(v) => {
                        let value = v.clone();
                        self.push(value);
                        Action::Continue
                    },
                    None => self.fail(EvalError::UnboundVariable),
                }
            },
            ExprKind::FunctionCall(name, args) => {
                match self.functions.get(&name) {
                    Some(found) => {
                        let f = found.clone();
                        let n = if f.args.len() <= args.len() {
                            f.args.len()
                        } else {
                            args.len()
                        };
                        let mut used = args;
                        used.truncate(n);
                        assert(exprs_model(used) =~= exprs_model(args).take(n as int));
                        self.tasks.push(Task::Call(f, n));
                        assert(tasks_model(self.tasks@) =~= tasks_model(old(self).tasks@) + seq![
                            TaskModel::Call(f@, n as nat),
                        ]);
                        schedule_evals(&mut self.tasks, used);
                        assert(tasks_model(self.tasks@) =~= tasks_model(old(self).tasks@) + (seq![
                            TaskModel::Call(f@, n as nat),
                        ] + evals(exprs_model(used))));
                        Action::Continue
                    },
                    None => self.fail(EvalError::UnboundFunction),
                }
            },
            ExprKind::BinaryOp(op, left, right) => {
                let ghost l = left@;
                let ghost r = right@;
                assert(kind == ExprKindModel::BinaryOp(op, Box::new(l), Box::new(r)));
                self.tasks.push(Task::Binary(op));
                self.tasks.push(Task::Eval(*right));
                self.tasks.push(Task::Eval(*left));
                assert(tasks_model(self.tasks@) =~= tasks_model(old(self).tasks@) + seq![
                    TaskModel::Binary(op),
                    TaskModel::Eval(r),
                    TaskModel::Eval(l),
                ]);
                Action::Continue
            },
        }
    }

    /// One step on a statement, which has just been taken off the work
    /// stack.
    fn execute_statement(&mut self, statement: Statement) -> (a: Action)
        requires
            old(self).tables_wf(),
        ensures
            final(self).tables_wf(),
            (final(self)@, a@) == execute_statement_spec(old(self)@, statement@),
            final(self).debugger() == old(self).debugger(),
    {
        let ghost model = statement@;
        let ghost kind = statement_kind_model(statement.kind);
        assert(model.kind == kind);
        match statement.kind {
            StatementKind::VariableDeclaration(name, e) => {
                let ghost em = e@;
                self.tasks.push(Task::Bind(name));
                self.tasks.push(Task::Eval(e));
                assert(tasks_model(self.tasks@) =~= tasks_model(old(self).tasks@) + seq![
                    TaskModel::Bind(name@),
                    TaskModel::Eval(em),
                ]);
                Action::Continue
            },
            StatementKind::FunctionDeclaration(name, args, body) => {
                let ghost before = self.functions;
                let f = Function { args, body };
                self.functions.insert(name, f);
                proof {
                    lemma_funs_insert(before, self.functions, name@, f);
                }
                Action::Continue
            },
            StatementKind::PrintStatement(args) => {
                let n = args.len();
                self.tasks.push(Task::Print(n));
                assert(tasks_model(self.tasks@) =~= tasks_model(old(self).tasks@) + seq![
                    TaskModel::Print(n as nat),
                ]);
                schedule_evals(&mut self.tasks, args);
                assert(tasks_model(self.tasks@) =~= tasks_model(old(self).tasks@) + (seq![
                    TaskModel::Print(n as nat),
                ] + evals(exprs_model(args))));
                Action::Continue
            },
            StatementKind::ExpressionStatement(e) => {
                let ghost em = e@;
                self.tasks.push(Task::Discard);
                self.tasks.push(Task::Eval(e));
                assert(tasks_model(self.tasks@) =~= tasks_model(old(self).tasks@) + seq![
                    TaskModel::Discard,
                    TaskModel::Eval(em),
                ]);
                Action::Continue
            },
        }
    }

    /// Starts a call: takes the argument values off the value stack, binds
    /// them in a fresh mapping, saves the caller's mapping on the work
    /// stack, and schedules the function's body.
    fn enter(&mut self, f: Function, n: usize) -> (a: Action)
        requires
            old(self).tables_wf(),
            n <= f.args.len(),
            n <= old(self).values.len(),
        ensures
            final(self).tables_wf(),
            final(self)@ == (State {
                variables: bind(f@.args.take(n as int), top(old(self)@.values, n as nat)),
                ..old(self)@.discard(n as nat).schedule(
                    seq![TaskModel::Return(old(self)@.variables)] + execs(f@.body),
                )
            }),
            a@ == ActionModel::Continue,
            final(self).debugger() == old(self).debugger(),
    {
        let parts = take_top(&mut self.values, n);
        let Function { args, body } = f;
        let mut table = bind_values(&args, &parts, n);
        core::mem::swap(&mut self.variables, &mut table);
        self.tasks.push(Task::Return(table));
        assert(tasks_model(self.tasks@) =~= tasks_model(old(self).tasks@) + seq![
            TaskModel::Return(old(self)@.variables),
        ]);
        schedule_statements(&mut self.tasks, body, false);
        assert(tasks_model(self.tasks@) =~= tasks_model(old(self).tasks@) + (seq![
            TaskModel::Return(old(self)@.variables),
        ] + execs(statements_model(body))));
        Action::Continue
    }

    /// Ends a call: pushes what `return` is bound to and puts the caller's
    /// mapping back; stops the run if `return` is not bound.
    fn leave(&mut self, saved: Table<String>) -> (a: Action)
        requires
            old(self).tables_wf(),
            saved.wf(),
        ensures
            final(self).tables_wf(),
            (final(self)@, a@) == (if old(self)@.variables.contains_key(return_name()) {
                (State {
                    variables: vars_model(saved),
                    ..old(self)@.push(old(self)@.variables[return_name()])
                }).go()
            } else {
                old(self)@.fail(EvalError::MissingReturn)
            }),
            final(self).debugger() == old(self).debugger(),
    {
        let name = String::from_str("return");
        proof {
            reveal_strlit("return");
            assert(name@ =~= return_name());
        }
        match self.variables.get(&name) {
            Some(v) => {
                let value = v.clone();
                self.variables = saved;
                self.push(value);
                Action::Continue
            },
            None => self.fail(EvalError::MissingReturn),
        }
    }

    /// Takes the last value off the value stack.
    fn pop(&mut self) -> (v: String)
        requires
            old(self).tables_wf(),
            old(self).values.len() >= 1,
        ensures
            final(self).tables_wf(),
            final(self)@ == old(self)@.discard(1),
            v@ == old(self)@.values.last(),
            final(self).values.len() == old(self).values.len() - 1,
            final(self).debugger() == old(self).debugger(),
    {
        let mut last = take_top(&mut self.values, 1);
        assert(top(old(self)@.values, 1)[0] == old(self)@.values.last());
        match last.pop() {
            Some(v) => v,
            None => vstd::pervasive::unreached(),
        }
    }

    /// Takes one step. A stopped machine repeats its error, a waiting one
    /// its request, one without tasks is done. Otherwise the last task is
    /// taken off the work stack and carried out.
    pub fn step(&mut self) -> (a: Action)
        requires
            old(self).wf(),
        ensures
            final(self).wf(),
            (final(self)@, a@) == step_spec(old(self)@),
            final(self).debugger() == old(self).debugger(),
    {
        proof {
            lemma_step_keeps_wf(self@);
        }
        if let Some(e) = self.halted {
            return Action::Fatal(e);
        }
        if let Some(q) = &self.pending {
            return Action::Numeric(q.clone());
        }
        let ghost before = self@;
        let task = match self.tasks.pop() {
            Some(task) => task,
            None => {
                return Action::Done;
            },
        };
        let ghost rest = State { tasks: before.tasks.drop_last(), ..before };
        assert(task@ == before.tasks.last());
        assert(self@ == rest) by {
            assert(tasks_model(self.tasks@) =~= before.tasks.drop_last());
        }
        assert(self.tables_wf());
        assert(self.values.len() >= consumes(task@));
        match task {
            Task::Top(s) => {
                self.schedule(Task::Exec(s));
                Action::Step
            },
            Task::Exec(s) => self.execute_statement(s),
            Task::Eval(e) => self.eval_expr(e),
            Task::Binary(op) => {
                let right = self.pop();
                let left = self.pop();
                assert(left@ == top(before.values, 2)[0]);
                assert(right@ == top(before.values, 2)[1]);
                assert(self@ == rest.discard(2)) by {
                    assert(self@.values =~= below(before.values, 2));
                }
                self.ask(NumericRequest::Apply(op, left, right))
            },
            Task::Array(n) => {
                let parts = take_top(&mut self.values, n);
                self.push(bracket(&parts));
                Action::Continue
            },
            Task::Bind(name) => {
                let value = self.pop();
                let ghost table = self.variables;
                self.variables.insert(name, value);
                proof {
                    lemma_vars_insert(table, self.variables, name@, value);
                }
                Action::Continue
            },
            Task::Print(n) => {
                let parts = take_top(&mut self.values, n);
                Action::Print(join(&parts))
            },
            Task::Discard => {
                let _ = self.pop();
                Action::Continue
            },
            Task::Call(f, n) => self.enter(f, n),
            Task::Return(saved) => self.leave(saved),
        }
    }

    /// Hands the machine the answer to the request it waits for: the
    /// result's text, or none where the work could not be done, which stops
    /// the run. A machine that does not wait is left as it is.
    pub fn resume(&mut self, answer: Option<String>)
        requires
            old(self).wf(),
        ensures
            final(self).wf(),
            final(self)@ == resume_spec(old(self)@, answer_model(answer)),
            final(self).debugger() == old(self).debugger(),
    {
        proof {
            lemma_resume_keeps_wf(self@, answer_model(answer));
        }
        if self.halted.is_some() || self.pending.is_none() {
            return ;
        }
        self.pending = None;
        match answer {
            Some(v) => {
                self.push(v);
            },
            None => {
                self.halted = Some(EvalError::NotNumeric);
            },
        }
    }

    /// Starts running `program`: schedules its statements, the first one
    /// first, above what was scheduled before, and takes one step. The
    /// driver carries out each action and steps again until the machine is
    /// done or has stopped.
    pub fn run(&mut self, program: Program) -> (a: Action)
        requires
            old(self).wf(),
        ensures
            final(self).wf(),
            (final(self)@, a@) == step_spec(old(self)@.schedule(tops(program@))),
            final(self).debugger() == old(self).debugger(),
    {
        let ghost before = self@;
        schedule_statements(&mut self.tasks, program.statements, true);
        proof {
            assert(self@ == before.schedule(tops(program@)));
            if before.halted is None {
                lemma_balanced_execs(
                    before.tasks,
                    program@,
                    before.supply(),
                );
            }
        }
        self.step()
    }

    /// The value that `name` is bound to in the active mapping.
    pub fn variable(&self, name: &str) -> (r: Option<String>)
        requires
            self.wf(),
        ensures
            match r {
                Some(v) => self@.variables.contains_key(name@) && self@.variables[name@] == v@,
                None => !self@.variables.contains_key(name@),
            },
    {
        let key = name.to_owned();
        match self.variables.get(&key) {
            Some(v) => Some(v.clone()),
            None => None,
        }
    }

    /// The names bound in the active mapping, each once.
    pub fn variable_names(&self) -> (r: Vec<String>)
        requires
            self.wf(),
        ensures
            forall|k: Seq<char>|
                self@.variables.contains_key(k) <==> exists|i: int|
                    0 <= i < r.len() && #[trigger] r[i]@ == k,
            forall|i: int, j: int| 0 <= i < j < r.len() ==> #[trigger] r[i]@ != #[trigger] r[j]@,
    {
        self.variables.names()
    }

    /// Whether a function of this name is registered.
    pub fn has_function(&self, name: &str) -> (b: bool)
        requires
            self.wf(),
        ensures
            b == self@.functions.contains_key(name@),
    {
        let key = name.to_owned();
        self.functions.get(&key).is_some()
    }

    /// Whether the debugger stops the run before each statement.
    pub fn debugging(&self) -> (b: bool)
        ensures
            b == self.debugger().enable,
    {
        self.debugger.enable
    }

    /// Switches the debugger on or off.
    pub fn set_debugging(&mut self, enable: bool)
        ensures
            final(self).debugger().enable == enable,
            final(self).debugger().breakpoints == old(self).debugger().breakpoints,
            final(self).debugger().current_line == old(self).debugger().current_line,
            final(self)@ == old(self)@,
            final(self).wf() == old(self).wf(),
    {
        self.debugger.enable = enable;
    }

    /// Carries out one debugger command line against the active mapping,
    /// which it does not change.
    pub fn debug_command(&mut self, input: &str) -> (r: DebugReply)
        requires
            old(self).wf(),
        ensures
            r@ == command_spec(old(self)@.variables, input@),
            final(self).debugger().enable == (old(self).debugger().enable && !(r@ is Continue)),
            final(self).debugger().breakpoints == old(self).debugger().breakpoints,
            final(self).debugger().current_line == old(self).debugger().current_line,
            final(self)@ == old(self)@,
            final(self).wf(),
    {
        self.debugger.command(&self.variables, input)
    }

    /// The statement that the next step executes, if the next step
    /// executes one.
    pub fn next_statement(&self) -> (r: Option<&Statement>)
        ensures
            match r {
                Some(s) => self@.tasks.len() > 0 && (self@.tasks.last() == TaskModel::Exec(s@)
                    || self@.tasks.last() == TaskModel::Top(s@)),
                None => self@.tasks.len() == 0 || !(self@.tasks.last() is Exec
                    || self@.tasks.last() is Top),
            },
    {
        let n = self.tasks.len();
        if n == 0 {
            return None;
        }
        match &self.tasks[n - 1] {
            Task::Exec(s) => Some(s),
            Task::Top(s) => Some(s),
            _ => None,
        }
    }
}

} // verus!
