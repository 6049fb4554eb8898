//! What one step of the evaluator does, stated on models.
//!
//! The evaluator is a stack machine. Its work stack holds tasks, the last
//! one first to run; its value stack holds the texts that evaluated
//! expressions left. Arithmetic on texts and the canonical rendering of a
//! floating-point literal are not computed here: the machine states such a
//! request, waits, and takes the answer it is handed.

use vstd::prelude::*;
use crate::ast::{
    BinaryOp, ExprKindModel, ExprModel, LiteralModel, StatementKindModel, StatementModel,
};
use crate::number::decimal;

verus! {

/// Why a run stopped for good.
#[derive(Debug, Clone, Copy, PartialEq, Eq, Structural)]
pub enum EvalError {
    /// A variable was read that no declaration had bound.
    UnboundVariable,
    /// A function was called that no declaration had registered.
    UnboundFunction,
    /// A text that is no number was given to arithmetic, or a
    /// floating-point literal could not be rendered.
    NotNumeric,
    /// A function's body ended without a variable named `return`.
    MissingReturn,
}

/// The model of a registered function.
pub struct FunctionModel {
    pub args: Seq<Seq<char>>,
    pub body: Seq<StatementModel>,
}

/// The model of a request for numeric work.
pub enum RequestModel {
    /// Render the floating-point number that the text denotes.
    Render(Seq<char>),
    /// Apply the operator to the numbers that the two texts denote.
    Apply(BinaryOp, Seq<char>, Seq<char>),
}

/// The model of a task on the work stack.
pub enum TaskModel {
    /// Announce a top-level statement, then execute it.
    Top(StatementModel),
    /// Execute a statement.
    Exec(StatementModel),
    /// Evaluate an expression and push its value.
    Eval(ExprModel),
    /// Pop the right and the left operand and ask for the operator's result.
    Binary(BinaryOp),
    /// Pop that many values and push them as the text of an array.
    Array(nat),
    /// Pop a value and bind it to the name.
    Bind(Seq<char>),
    /// Pop that many values and print them as one line.
    Print(nat),
    /// Pop a value.
    Discard,
    /// Pop that many values, bind them to the function's first parameters
    /// in a fresh mapping, and run the function's body in it.
    Call(FunctionModel, nat),
    /// Push what `return` is bound to and put the saved mapping back.
    Return(Map<Seq<char>, Seq<char>>),
}

/// The model of what the machine asks of its driver after a step.
pub enum ActionModel {
    /// Nothing: step again.
    Continue,
    /// The statement on top is about to run: the debugger may look.
    Step,
    /// Write this line.
    Print(Seq<char>),
    /// Do this numeric work and hand the result back.
    Numeric(RequestModel),
    /// The program has ended.
    Done,
    /// The run has stopped on this error.
    Fatal(EvalError),
}

/// The model of the machine.
pub struct State {
    /// The one active mapping from variable names to values.
    pub variables: Map<Seq<char>, Seq<char>>,
    /// The registered functions.
    pub functions: Map<Seq<char>, FunctionModel>,
    /// The work stack; its last task runs first.
    pub tasks: Seq<TaskModel>,
    /// The value stack.
    pub values: Seq<Seq<char>>,
    /// The numeric request that waits for its answer.
    pub pending: Option<RequestModel>,
    /// The error that stopped the run.
    pub halted: Option<EvalError>,
}

/// The name through which a function hands back its result.
pub open spec fn return_name() -> Seq<char> {
    seq!['r', 'e', 't', 'u', 'r', 'n']
}

/// The texts joined by a comma and a space.
pub open spec fn joined(parts: Seq<Seq<char>>) -> Seq<char>
    decreases parts.len(),
{
    if parts.len() == 0 {
        Seq::empty()
    } else if parts.len() == 1 {
        parts[0]
    } else {
        joined(parts.drop_last()) + seq![',', ' '] + parts.last()
    }
}

/// The texts joined by a comma and a space, in square brackets.
pub open spec fn bracketed(parts: Seq<Seq<char>>) -> Seq<char> {
    seq!['['] + joined(parts) + seq![']']
}

/// The mapping that binds each of `names` to the value at the same place;
/// of two equal names the later one wins.
pub open spec fn bind(names: Seq<Seq<char>>, values: Seq<Seq<char>>) -> Map<
    Seq<char>,
    Seq<char>,
>
    decreases names.len(),
{
    if names.len() == 0 || values.len() < names.len() {
        Map::empty()
    } else {
        bind(names.drop_last(), values).insert(names.last(), values[names.len() - 1])
    }
}

/// Tasks that evaluate `es` from the first to the last.
pub open spec fn evals(es: Seq<ExprModel>) -> Seq<TaskModel> {
    Seq::new(es.len(), |i: int| TaskModel::Eval(es[es.len() - 1 - i]))
}

/// Tasks that execute `ss` from the first to the last.
pub open spec fn execs(ss: Seq<StatementModel>) -> Seq<TaskModel> {
    Seq::new(ss.len(), |i: int| TaskModel::Exec(ss[ss.len() - 1 - i]))
}

/// Tasks that announce and execute `ss` from the first to the last.
pub open spec fn tops(ss: Seq<StatementModel>) -> Seq<TaskModel> {
    Seq::new(ss.len(), |i: int| TaskModel::Top(ss[ss.len() - 1 - i]))
}

/// The last `n` of `values`, in order.
pub open spec fn top(values: Seq<Seq<char>>, n: nat) -> Seq<Seq<char>> {
    values.skip(values.len() - n)
}

/// `values` without its last `n`.
pub open spec fn below(values: Seq<Seq<char>>, n: nat) -> Seq<Seq<char>> {
    values.take(values.len() - n)
}

impl State {
    /// The machine before anything was run.
    pub open spec fn initial() -> State {
        State {
            variables: Map::empty(),
            functions: Map::empty(),
            tasks: Seq::empty(),
            values: Seq::empty(),
            pending: None,
            halted: None,
        }
    }

    /// With `ts` put on the work stack.
    pub open spec fn schedule(self, ts: Seq<TaskModel>) -> State {
        State { tasks: self.tasks + ts, ..self }
    }

    /// With `v` pushed on the value stack.
    pub open spec fn push(self, v: Seq<char>) -> State {
        State { values: self.values.push(v), ..self }
    }

    /// Without the last `n` values.
    pub open spec fn discard(self, n: nat) -> State {
        State { values: below(self.values, n), ..self }
    }

    /// Stopped on `e`.
    pub open spec fn fail(self, e: EvalError) -> (State, ActionModel) {
        (State { halted: Some(e), ..self }, ActionModel::Fatal(e))
    }

    /// Waiting for the answer to `q`.
    pub open spec fn ask(self, q: RequestModel) -> (State, ActionModel) {
        (State { pending: Some(q), ..self }, ActionModel::Numeric(q))
    }

    /// Going on.
    pub open spec fn go(self) -> (State, ActionModel) {
        (self, ActionModel::Continue)
    }
}

/// One step on an expression: literals of integers and strings are their
/// text; a floating-point literal asks for its rendering; an array, a call
/// and an operator schedule their parts; a variable is looked up.
pub open spec fn eval_expr_spec(m: State, e: ExprModel) -> (State, ActionModel) {
    match e.kind {
        ExprKindModel::Literal(LiteralModel::Int(n)) => m.push(decimal(n as int)).go(),
        ExprKindModel::Literal(LiteralModel::Float(text)) => m.ask(RequestModel::Render(text)),
        ExprKindModel::Literal(LiteralModel::String(text)) => m.push(text).go(),
        ExprKindModel::Literal(LiteralModel::Array(elements)) => m.schedule(
            seq![TaskModel::Array(elements.len())] + evals(elements),
        ).go(),
        ExprKindModel::Variable(name) => if m.variables.contains_key(name) {
            m.push(m.variables[name]).go()
        } else {
            m.fail(EvalError::UnboundVariable)
        },
        ExprKindModel::FunctionCall(name, args) => if m.functions.contains_key(name) {
            let f = m.functions[name];
            let n = if f.args.len() <= args.len() {
                f.args.len()
            } else {
                args.len()
            };
            m.schedule(seq![TaskModel::Call(f, n)] + evals(args.take(n as int))).go()
        } else {
            m.fail(EvalError::UnboundFunction)
        },
        ExprKindModel::BinaryOp(op, left, right) => m.schedule(
            seq![TaskModel::Binary(op), TaskModel::Eval(*right), TaskModel::Eval(*left)],
        ).go(),
    }
}

/// One step on a statement: a declaration schedules its initializer and
/// the binding; a function is registered, replacing one of the same name;
/// a print statement and an expression statement schedule their
/// expressions and what becomes of the values.
pub open spec fn execute_statement_spec(m: State, s: StatementModel) -> (State, ActionModel) {
    match s.kind {
        StatementKindModel::VariableDeclaration(name, e) => m.schedule(
            seq![TaskModel::Bind(name), TaskModel::Eval(e)],
        ).go(),
        StatementKindModel::FunctionDeclaration(name, args, body) => State {
            functions: m.functions.insert(name, FunctionModel { args, body }),
            ..m
        }.go(),
        StatementKindModel::PrintStatement(args) => m.schedule(
            seq![TaskModel::Print(args.len())] + evals(args),
        ).go(),
        StatementKindModel::ExpressionStatement(e) => m.schedule(
            seq![TaskModel::Discard, TaskModel::Eval(e)],
        ).go(),
    }
}

/// One step of the machine. A stopped machine repeats its error, a waiting
/// one its request, one without tasks is done. Otherwise the last task is
/// taken off the work stack and carried out.
pub open spec fn step_spec(m: State) -> (State, ActionModel) {
    if m.halted is Some {
        (m, ActionModel::Fatal(m.halted->0))
    } else if m.pending is Some {
        (m, ActionModel::Numeric(m.pending->0))
    } else if m.tasks.len() == 0 {
        (m, ActionModel::Done)
    } else {
        let rest = State { tasks: m.tasks.drop_last(), ..m };
        match m.tasks.last() {
            TaskModel::Top(s) => (rest.schedule(seq![TaskModel::Exec(s)]), ActionModel::Step),
            TaskModel::Exec(s) => execute_statement_spec(rest, s),
            TaskModel::Eval(e) => eval_expr_spec(rest, e),
            TaskModel::Binary(op) => rest.discard(2).ask(
                RequestModel::Apply(op, top(m.values, 2)[0], top(m.values, 2)[1]),
            ),
            TaskModel::Array(n) => rest.discard(n).push(bracketed(top(m.values, n))).go(),
            TaskModel::Bind(name) => State {
                variables: m.variables.insert(name, m.values.last()),
                ..rest.discard(1)
            }.go(),
            TaskModel::Print(n) => (rest.discard(n), ActionModel::Print(joined(top(m.values, n)))),
            TaskModel::Discard => rest.discard(1).go(),
            TaskModel::Call(f, n) => State {
                variables: bind(f.args.take(n as int), top(m.values, n)),
                ..rest.discard(n).schedule(seq![TaskModel::Return(m.variables)] + execs(f.body))
            }.go(),
            TaskModel::Return(saved) => if m.variables.contains_key(return_name()) {
                State { variables: saved, ..rest.push(m.variables[return_name()]) }.go()
            } else {
                rest.fail(EvalError::MissingReturn)
            },
        }
    }
}

/// What the answer to the pending request does: a text is pushed as the
/// value, none stops the run. A machine that does not wait is unchanged.
pub open spec fn resume_spec(m: State, answer: Option<Seq<char>>) -> State {
    if m.halted is Some || m.pending is None {
        m
    } else {
        match answer {
            Some(v) => State { pending: None, ..m.push(v) },
            None => State { pending: None, halted: Some(EvalError::NotNumeric), ..m },
        }
    }
}

/// How many values a task takes off the value stack.
pub open spec fn consumes(t: TaskModel) -> nat {
    match t {
        TaskModel::Binary(_) => 2,
        TaskModel::Array(n) => n,
        TaskModel::Bind(_) => 1,
        TaskModel::Print(n) => n,
        TaskModel::Discard => 1,
        TaskModel::Call(_, n) => n,
        _ => 0,
    }
}

/// How many values a task, once it is through, has put on the value stack.
pub open spec fn produces(t: TaskModel) -> nat {
    match t {
        TaskModel::Eval(_) => 1,
        TaskModel::Binary(_) => 1,
        TaskModel::Array(_) => 1,
        TaskModel::Call(_, _) => 1,
        TaskModel::Return(_) => 1,
        _ => 0,
    }
}

/// Whether a task is sound in itself: a call binds no more values than the
/// function has parameters.
pub open spec fn task_ok(t: TaskModel) -> bool {
    match t {
        TaskModel::Call(f, n) => n <= f.args.len(),
        _ => true,
    }
}

/// Whether each task of `tasks`, run from the last to the first, will find
/// the values it takes, given that `have` values are there now.
pub open spec fn balanced(tasks: Seq<TaskModel>, have: int) -> bool
    decreases tasks.len(),
{
    if tasks.len() == 0 {
        have >= 0
    } else {
        let t = tasks.last();
        &&& task_ok(t)
        &&& have >= consumes(t)
        &&& balanced(tasks.drop_last(), have - consumes(t) + produces(t))
    }
}

impl State {
    /// How many values are there, the answer that is waited for included.
    pub open spec fn supply(self) -> int {
        if self.pending is Some {
            self.values.len() as int + 1
        } else {
            self.values.len() as int
        }
    }

    /// Whether the machine is well formed: unless it has stopped, every
    /// task will find its values.
    pub open spec fn wf(self) -> bool {
        self.halted is None ==> balanced(self.tasks, self.supply())
    }
}

/// A task on top of a balanced stack.
pub proof fn lemma_balanced_push(tasks: Seq<TaskModel>, t: TaskModel, have: int)
    ensures
        balanced(tasks.push(t), have) <==> task_ok(t) && have >= consumes(t) && balanced(
            tasks,
            have - consumes(t) + produces(t),
        ),
{
    assert(tasks.push(t).drop_last() == tasks);
}

/// Evaluations on top of a stack add one value each.
pub proof fn lemma_balanced_evals(tasks: Seq<TaskModel>, es: Seq<ExprModel>, have: int)
    requires
        have >= 0,
    ensures
        balanced(tasks + evals(es), have) <==> balanced(tasks, have + es.len()),
    decreases es.len(),
{
    if es.len() == 0 {
        assert(tasks + evals(es) == tasks);
    } else {
        let rest = es.skip(1);
        assert(tasks + evals(es) == (tasks + evals(rest)).push(TaskModel::Eval(es[0])));
        lemma_balanced_push(tasks + evals(rest), TaskModel::Eval(es[0]), have);
        lemma_balanced_evals(tasks, rest, have + 1);
    }
}

/// Statements on top of a stack leave the values as they are.
pub proof fn lemma_balanced_execs(tasks: Seq<TaskModel>, ss: Seq<StatementModel>, have: int)
    requires
        have >= 0,
    ensures
        balanced(tasks + execs(ss), have) <==> balanced(tasks, have),
        balanced(tasks + tops(ss), have) <==> balanced(tasks, have),
    decreases ss.len(),
{
    if ss.len() == 0 {
        assert(tasks + execs(ss) == tasks);
        assert(tasks + tops(ss) == tasks);
    } else {
        let rest = ss.skip(1);
        assert(tasks + execs(ss) == (tasks + execs(rest)).push(TaskModel::Exec(ss[0])));
        assert(tasks + tops(ss) == (tasks + tops(rest)).push(TaskModel::Top(ss[0])));
        lemma_balanced_push(tasks + execs(rest), TaskModel::Exec(ss[0]), have);
        lemma_balanced_push(tasks + tops(rest), TaskModel::Top(ss[0]), have);
        lemma_balanced_execs(tasks, rest, have);
    }
}

/// A step keeps the machine well formed.
pub proof fn lemma_step_keeps_wf(m: State)
    requires
        m.wf(),
    ensures
        step_spec(m).0.wf(),
{
    if m.halted is None && m.pending is None && m.tasks.len() > 0 {
        let h = m.values.len() as int;
        let rest = m.tasks.drop_last();
        let t = m.tasks.last();
        let after = step_spec(m).0;
        assert(balanced(rest, h - consumes(t) + produces(t)));
        match t {
            TaskModel::Top(s) => {
                assert(rest + seq![TaskModel::Exec(s)] == rest.push(TaskModel::Exec(s)));
                lemma_balanced_push(rest, TaskModel::Exec(s), h);
            },
            TaskModel::Exec(s) => {
                match s.kind {
                    StatementKindModel::VariableDeclaration(name, e) => {
                        assert(rest + seq![TaskModel::Bind(name), TaskModel::Eval(e)] == rest.push(
                            TaskModel::Bind(name),
                        ).push(TaskModel::Eval(e)));
                        lemma_balanced_push(rest.push(TaskModel::Bind(name)), TaskModel::Eval(e), h);
                        lemma_balanced_push(rest, TaskModel::Bind(name), h + 1);
                    },
                    StatementKindModel::FunctionDeclaration(name, args, body) => {},
                    StatementKindModel::PrintStatement(args) => {
                        let p = TaskModel::Print(args.len());
                        assert(rest + (seq![p] + evals(args)) == rest.push(p) + evals(args));
                        lemma_balanced_evals(rest.push(p), args, h);
                        lemma_balanced_push(rest, p, h + args.len());
                    },
                    StatementKindModel::ExpressionStatement(e) => {
                        assert(rest + seq![TaskModel::Discard, TaskModel::Eval(e)] == rest.push(
                            TaskModel::Discard,
                        ).push(TaskModel::Eval(e)));
                        lemma_balanced_push(rest.push(TaskModel::Discard), TaskModel::Eval(e), h);
                        lemma_balanced_push(rest, TaskModel::Discard, h + 1);
                    },
                }
            },
            TaskModel::Eval(e) => {
                match e.kind {
                    ExprKindModel::Literal(LiteralModel::Array(elements)) => {
                        let a = TaskModel::Array(elements.len());
                        assert(rest + (seq![a] + evals(elements)) == rest.push(a) + evals(
                            elements,
                        ));
                        lemma_balanced_evals(rest.push(a), elements, h);
                        lemma_balanced_push(rest, a, h + elements.len());
                    },
                    ExprKindModel::FunctionCall(name, args) => {
                        if m.functions.contains_key(name) {
                            let f = m.functions[name];
                            let n = if f.args.len() <= args.len() {
                                f.args.len()
                            } else {
                                args.len()
                            };
                            let c = TaskModel::Call(f, n);
                            let used = args.take(n as int);
                            assert(rest + (seq![c] + evals(used)) == rest.push(c) + evals(used));
                            lemma_balanced_evals(rest.push(c), used, h);
                            lemma_balanced_push(rest, c, h + n);
                        }
                    },
                    ExprKindModel::BinaryOp(op, left, right) => {
                        let b = TaskModel::Binary(op);
                        let r = TaskModel::Eval(*right);
                        let l = TaskModel::Eval(*left);
                        assert(rest + seq![b, r, l] == rest.push(b).push(r).push(l));
                        lemma_balanced_push(rest.push(b).push(r), l, h);
                        lemma_balanced_push(rest.push(b), r, h + 1);
                        lemma_balanced_push(rest, b, h + 2);
                    },
                    _ => {},
                }
            },
            TaskModel::Call(f, n) => {
                let r = TaskModel::Return(m.variables);
                assert(rest + (seq![r] + execs(f.body)) == rest.push(r) + execs(f.body));
                lemma_balanced_execs(rest.push(r), f.body, h - n);
                lemma_balanced_push(rest, r, h - n);
            },
            _ => {},
        }
    }
}

/// An answer keeps the machine well formed.
pub proof fn lemma_resume_keeps_wf(m: State, answer: Option<Seq<char>>)
    requires
        m.wf(),
    ensures
        resume_spec(m, answer).wf(),
{
}

} // verus!
