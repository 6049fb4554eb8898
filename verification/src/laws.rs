//! Laws of the evaluator, proved of the machine's model for every run:
//! whatever the answers to its numeric requests are, and however many
//! steps a run takes.

use vstd::prelude::*;
use crate::ast::{
    BinaryOp, ExprKindModel, ExprModel, LiteralModel, StatementKindModel, StatementModel,
};
use crate::number::decimal;
use crate::semantics::{
    bind, evals, execs, resume_spec, step_spec, top,
    ActionModel, EvalError, FunctionModel, RequestModel, State, TaskModel,
};

verus! {

/// One move of a run: a waiting machine takes the answer, any other
/// machine takes a step and the answer is not looked at.
pub open spec fn move_spec(m: State, answer: Option<Seq<char>>) -> State {
    if m.halted is None && m.pending is Some {
        resume_spec(m, answer)
    } else {
        step_spec(m).0
    }
}

/// The machine after as many moves as there are answers, each move with
/// its answer.
pub open spec fn advance(m: State, answers: Seq<Option<Seq<char>>>) -> State
    decreases answers.len(),
{
    if answers.len() == 0 {
        m
    } else {
        move_spec(advance(m, answers.drop_last()), answers.last())
    }
}

/// Whether a task belongs to the evaluation of an expression and leaves
/// the variables alone.
pub open spec fn is_expression_task(t: TaskModel) -> bool {
    t is Eval || t is Binary || t is Array || t is Call
}

/// Whether the tasks are expression tasks only.
pub open spec fn open_stack(a: Seq<TaskModel>) -> bool {
    forall|i: int| 0 <= i < a.len() ==> is_expression_task(#[trigger] a[i])
}

/// Whether the lowest task that is no expression task is the return to
/// the mapping `v0`.
pub open spec fn anchored(a: Seq<TaskModel>, v0: Map<Seq<char>, Seq<char>>) -> bool {
    exists|i: int|
        0 <= i < a.len() && #[trigger] a[i] == TaskModel::Return(v0) && open_stack(a.take(i))
}

/// Whether the mapping `v0` will be the active one once the tasks `a` are
/// through: it is active now and nothing in `a` touches it, or a call is
/// under way that has saved it.
pub open spec fn settled(
    a: Seq<TaskModel>,
    current: Map<Seq<char>, Seq<char>>,
    v0: Map<Seq<char>, Seq<char>>,
) -> bool {
    anchored(a, v0) || (open_stack(a) && current == v0)
}

/// Whether a run is still above the tasks `base` that it started over,
/// with `v0` the mapping that was active then: unless the machine has
/// stopped, `base` is untouched and `v0` is settled.
pub open spec fn kept(m: State, base: Seq<TaskModel>, v0: Map<Seq<char>, Seq<char>>) -> bool {
    m.halted is None ==> {
        &&& m.tasks.len() >= base.len()
        &&& m.tasks.take(base.len() as int) == base
        &&& settled(m.tasks.skip(base.len() as int), m.variables, v0)
    }
}

/// Whether the machine still has work above `height` tasks, or waits for
/// an answer.
pub open spec fn unfinished(m: State, height: int) -> bool {
    m.halted is None ==> m.tasks.len() > height || m.pending is Some
}

/// Tasks put above an anchored stack leave it anchored.
proof fn lemma_anchored_extend(
    a: Seq<TaskModel>,
    x: Seq<TaskModel>,
    v0: Map<Seq<char>, Seq<char>>,
)
    requires
        anchored(a, v0),
    ensures
        anchored(a + x, v0),
{
    let i = choose|i: int|
        0 <= i < a.len() && #[trigger] a[i] == TaskModel::Return(v0) && open_stack(a.take(i));
    assert((a + x)[i] == a[i]);
    assert((a + x).take(i) == a.take(i));
}

/// Evaluations are expression tasks.
proof fn lemma_open_evals(a: Seq<TaskModel>, head: TaskModel, es: Seq<ExprModel>)
    requires
        open_stack(a),
        is_expression_task(head),
    ensures
        open_stack(a + (seq![head] + evals(es))),
{
    let all = a + (seq![head] + evals(es));
    assert forall|i: int| 0 <= i < all.len() implies is_expression_task(#[trigger] all[i]) by {
        if i < a.len() {
            assert(all[i] == a[i]);
        } else if i == a.len() {
            assert(all[i] == head);
        } else {
            assert(all[i] == evals(es)[i - a.len() - 1]);
        }
    }
}

/// A step takes the last task off and puts tasks in its place: what lies
/// under the last task stays.
pub proof fn lemma_step_frame(m: State)
    requires
        m.halted is None,
        m.pending is None,
        m.tasks.len() > 0,
    ensures
        step_spec(m).0.tasks.len() >= m.tasks.len() - 1,
        step_spec(m).0.tasks.take(m.tasks.len() - 1) == m.tasks.drop_last(),
{
    let rest = m.tasks.drop_last();
    let after = step_spec(m).0.tasks;
    match m.tasks.last() {
        TaskModel::Exec(s) => {
            match s.kind {
                StatementKindModel::PrintStatement(args) => {
                    assert(after == rest + (seq![TaskModel::Print(args.len())] + evals(args)));
                },
                _ => {},
            }
        },
        TaskModel::Eval(e) => {
            match e.kind {
                ExprKindModel::Literal(LiteralModel::Array(elements)) => {
                    assert(after == rest + (seq![TaskModel::Array(elements.len())] + evals(
                        elements,
                    )));
                },
                _ => {},
            }
        },
        _ => {},
    }
    assert(after.take(rest.len() as int) =~= rest);
}

/// A move of an unfinished run keeps it above its base and keeps the
/// base's mapping settled.
pub proof fn lemma_move_keeps(
    m: State,
    base: Seq<TaskModel>,
    v0: Map<Seq<char>, Seq<char>>,
    answer: Option<Seq<char>>,
)
    requires
        kept(m, base, v0),
        unfinished(m, base.len() as int),
    ensures
        kept(move_spec(m, answer), base, v0),
{
    let after = move_spec(m, answer);
    let b = base.len() as int;
    if m.halted is None && m.pending is None && after.halted is None {
        lemma_step_frame(m);
        let t = m.tasks.last();
        let rest = m.tasks.drop_last();
        let a = m.tasks.skip(b);
        let low = rest.skip(b);
        let pushed = after.tasks.skip(rest.len() as int);
        assert(a == low.push(t));
        assert(after.tasks == rest + pushed) by {
            assert(after.tasks =~= after.tasks.take(rest.len() as int) + pushed);
        }
        assert(after.tasks.take(b) =~= base) by {
            assert(rest.take(b) =~= m.tasks.take(b));
        }
        assert(after.tasks.skip(b) =~= low + pushed);
        if anchored(a, v0) {
            let i = choose|i: int|
                0 <= i < a.len() && #[trigger] a[i] == TaskModel::Return(v0) && open_stack(
                    a.take(i),
                );
            if i < low.len() {
                assert(low[i] == a[i]);
                assert(low.take(i) == a.take(i));
                assert(anchored(low, v0));
                lemma_anchored_extend(low, pushed, v0);
            } else {
                assert(a.take(i) == low);
                assert(t == TaskModel::Return(v0));
                assert(pushed =~= Seq::<TaskModel>::empty());
                assert(low + pushed == low);
            }
        } else {
            assert(is_expression_task(a[low.len() as int]));
            assert(open_stack(low)) by {
                assert forall|i: int| 0 <= i < low.len() implies is_expression_task(
                    #[trigger] low[i],
                ) by {
                    assert(a[i] == low[i]);
                }
            }
            match t {
                TaskModel::Eval(e) => {
                    match e.kind {
                        ExprKindModel::Literal(LiteralModel::Array(elements)) => {
                            let head = TaskModel::Array(elements.len());
                            assert(pushed =~= seq![head] + evals(elements));
                            lemma_open_evals(low, head, elements);
                        },
                        ExprKindModel::FunctionCall(name, args) => {
                            let f = m.functions[name];
                            let n = if f.args.len() <= args.len() {
                                f.args.len()
                            } else {
                                args.len()
                            };
                            let head = TaskModel::Call(f, n);
                            assert(pushed =~= seq![head] + evals(args.take(n as int)));
                            lemma_open_evals(low, head, args.take(n as int));
                        },
                        ExprKindModel::BinaryOp(op, left, right) => {
                            assert(pushed =~= seq![
                                TaskModel::Binary(op),
                                TaskModel::Eval(*right),
                                TaskModel::Eval(*left),
                            ]);
                            assert(open_stack(low + pushed));
                        },
                        _ => {
                            assert(pushed =~= Seq::<TaskModel>::empty());
                            assert(low + pushed == low);
                        },
                    }
                },
                TaskModel::Call(f, n) => {
                    assert(pushed =~= seq![TaskModel::Return(m.variables)] + execs(f.body));
                    let all = low + pushed;
                    assert(all[low.len() as int] == TaskModel::Return(v0));
                    assert(all.take(low.len() as int) == low);
                },
                _ => {
                    assert(pushed =~= Seq::<TaskModel>::empty());
                    assert(low + pushed == low);
                },
            }
        }
    }
}

/// Whether every state of the run before its last is unfinished above
/// `height` tasks.
pub open spec fn unfinished_until(m: State, answers: Seq<Option<Seq<char>>>, height: int) -> bool {
    forall|k: int|
        0 <= k < answers.len() ==> unfinished(#[trigger] advance(m, answers.take(k)), height)
}

/// A run that stays unfinished keeps its base and keeps the base's mapping
/// settled.
pub proof fn lemma_advance_keeps(
    m: State,
    base: Seq<TaskModel>,
    v0: Map<Seq<char>, Seq<char>>,
    answers: Seq<Option<Seq<char>>>,
)
    requires
        kept(m, base, v0),
        unfinished_until(m, answers, base.len() as int),
    ensures
        kept(advance(m, answers), base, v0),
    decreases answers.len(),
{
    if answers.len() > 0 {
        let front = answers.drop_last();
        assert forall|k: int| 0 <= k < front.len() implies unfinished(
            #[trigger] advance(m, front.take(k)),
            base.len() as int,
        ) by {
            assert(front.take(k) == answers.take(k));
        }
        lemma_advance_keeps(m, base, v0, front);
        assert(answers.take(answers.len() - 1) == front);
        lemma_move_keeps(advance(m, front), base, v0, answers.last());
    }
}

/// Evaluating an expression leaves the active mapping as it was.
///
/// Take a machine about to evaluate `e` and let it run, with any answers,
/// until the work stack is back to what lay under that task and no answer
/// is waited for. If the run has not stopped on an error, the mapping of
/// variables is the one from before, and what lay under the task is
/// untouched. In particular a call hands nothing of the callee's bindings
/// back to the caller.
pub proof fn lemma_evaluation_restores_variables(
    m: State,
    e: ExprModel,
    answers: Seq<Option<Seq<char>>>,
)
    requires
        m.halted is None,
        m.pending is None,
        m.tasks.len() > 0,
        m.tasks.last() == TaskModel::Eval(e),
        unfinished_until(m, answers, m.tasks.len() - 1),
        advance(m, answers).halted is None,
        advance(m, answers).pending is None,
        advance(m, answers).tasks.len() <= m.tasks.len() - 1,
    ensures
        advance(m, answers).variables == m.variables,
        advance(m, answers).tasks == m.tasks.drop_last(),
{
    let base = m.tasks.drop_last();
    let a = m.tasks.skip(base.len() as int);
    assert(a =~= seq![TaskModel::Eval(e)]);
    assert(open_stack(a));
    assert(m.tasks.take(base.len() as int) == base);
    lemma_advance_keeps(m, base, m.variables, answers);
    let end = advance(m, answers);
    assert(end.tasks.skip(base.len() as int) =~= Seq::<TaskModel>::empty());
    assert(end.tasks =~= end.tasks.take(base.len() as int));
    assert(!anchored(end.tasks.skip(base.len() as int), m.variables));
}

/// A call starts in a mapping made of its parameters and arguments alone:
/// nothing of the caller's bindings is in it.
pub proof fn lemma_call_sees_only_arguments(m1: State, m2: State, f: FunctionModel, n: nat)
    requires
        m1.halted is None && m1.pending is None,
        m2.halted is None && m2.pending is None,
        m1.tasks.len() > 0 && m1.tasks.last() == TaskModel::Call(f, n),
        m2.tasks.len() > 0 && m2.tasks.last() == TaskModel::Call(f, n),
        top(m1.values, n) == top(m2.values, n),
    ensures
        step_spec(m1).0.variables == step_spec(m2).0.variables,
        step_spec(m1).0.variables == bind(f.args.take(n as int), top(m1.values, n)),
        forall|k: Seq<char>|
            step_spec(m1).0.variables.contains_key(k) ==> f.args.take(n as int).contains(k),
{
    lemma_bind_domain(f.args.take(n as int), top(m1.values, n));
}

/// A mapping made by binding names holds those names only.
pub proof fn lemma_bind_domain(names: Seq<Seq<char>>, values: Seq<Seq<char>>)
    ensures
        forall|k: Seq<char>| bind(names, values).contains_key(k) ==> names.contains(k),
    decreases names.len(),
{
    if names.len() > 0 && values.len() >= names.len() {
        lemma_bind_domain(names.drop_last(), values);
        assert forall|k: Seq<char>| bind(names, values).contains_key(k) implies names.contains(
            k,
        ) by {
            if k == names.last() {
                assert(names[names.len() - 1] == k);
            } else {
                assert(names.drop_last().contains(k));
                let i = choose|i: int| 0 <= i < names.drop_last().len() && names.drop_last()[i] == k;
                assert(names[i] == k);
            }
        }
    }
}

/// Whether a declaration of `name` with initializer `e` is on top of the
/// machine and runs to its end with the given answers: after the step that
/// schedules it, the initializer is evaluated, without an error, until only
/// the binding is left to do.
pub open spec fn declaration_completes(
    m: State,
    s: StatementModel,
    name: Seq<char>,
    e: ExprModel,
    answers: Seq<Option<Seq<char>>>,
) -> bool {
    let started = step_spec(m).0;
    let evaluated = advance(started, answers);
    &&& m.halted is None
    &&& m.pending is None
    &&& m.tasks.len() > 0
    &&& m.tasks.last() == TaskModel::Exec(s)
    &&& s.kind == StatementKindModel::VariableDeclaration(name, e)
    &&& unfinished_until(started, answers, m.tasks.len() as int)
    &&& evaluated.halted is None
    &&& evaluated.pending is None
    &&& evaluated.tasks.len() <= m.tasks.len()
}

/// The machine after a declaration on top of `m` has run to its end.
pub open spec fn declared(m: State, answers: Seq<Option<Seq<char>>>) -> State {
    step_spec(advance(step_spec(m).0, answers)).0
}

/// The value that the initializer of a declaration on top of `m` came to.
pub open spec fn declared_value(m: State, answers: Seq<Option<Seq<char>>>) -> Seq<char> {
    advance(step_spec(m).0, answers).values.last()
}

/// A declaration binds its name to the value of its initializer and
/// changes nothing else in the mapping, whatever the name was bound to
/// before; the tasks under it are untouched.
pub proof fn lemma_declaration_binds(
    m: State,
    s: StatementModel,
    name: Seq<char>,
    e: ExprModel,
    answers: Seq<Option<Seq<char>>>,
)
    requires
        declaration_completes(m, s, name, e, answers),
    ensures
        declared(m, answers).variables == m.variables.insert(name, declared_value(m, answers)),
        declared(m, answers).tasks == m.tasks.drop_last(),
        declared(m, answers).halted is None,
        declared(m, answers).pending is None,
{
    let base = m.tasks.drop_last();
    let started = step_spec(m).0;
    assert(started.tasks == base + seq![TaskModel::Bind(name), TaskModel::Eval(e)]);
    assert(started.tasks.drop_last() =~= base.push(TaskModel::Bind(name)));
    lemma_evaluation_restores_variables(started, e, answers);
    let evaluated = advance(started, answers);
    assert(evaluated.tasks.drop_last() =~= base);
}

/// Declaring a name twice leaves only the later binding: after both
/// declarations the mapping is the first one with the name bound to the
/// second initializer's value.
pub proof fn lemma_redeclaration(
    m: State,
    s1: StatementModel,
    s2: StatementModel,
    name: Seq<char>,
    e1: ExprModel,
    e2: ExprModel,
    answers1: Seq<Option<Seq<char>>>,
    answers2: Seq<Option<Seq<char>>>,
)
    requires
        declaration_completes(m, s1, name, e1, answers1),
        declaration_completes(declared(m, answers1), s2, name, e2, answers2),
    ensures
        declared(declared(m, answers1), answers2).variables == m.variables.insert(
            name,
            declared_value(declared(m, answers1), answers2),
        ),
{
    lemma_declaration_binds(m, s1, name, e1, answers1);
    lemma_declaration_binds(declared(m, answers1), s2, name, e2, answers2);
    let v1 = declared_value(m, answers1);
    let v2 = declared_value(declared(m, answers1), answers2);
    assert(m.variables.insert(name, v1).insert(name, v2) =~= m.variables.insert(name, v2));
}

/// An integer literal evaluates, in one step, to its canonical decimal
/// rendering.
pub proof fn lemma_integer_literal(m: State, e: ExprModel, n: i64)
    requires
        m.halted is None,
        m.pending is None,
        m.tasks.len() > 0,
        m.tasks.last() == TaskModel::Eval(e),
        e.kind == ExprKindModel::Literal(LiteralModel::Int(n)),
    ensures
        step_spec(m).1 == ActionModel::Continue,
        step_spec(m).0 == (State {
            tasks: m.tasks.drop_last(),
            values: m.values.push(decimal(n as int)),
            ..m
        }),
{
}

/// A floating-point literal evaluates to whatever rendering its text
/// gives: the machine asks for the rendering of exactly that text, and the
/// answer becomes the value; no answer stops the run.
pub proof fn lemma_float_literal(m: State, e: ExprModel, text: Seq<char>, answer: Option<Seq<char>>)
    requires
        m.halted is None,
        m.pending is None,
        m.tasks.len() > 0,
        m.tasks.last() == TaskModel::Eval(e),
        e.kind == ExprKindModel::Literal(LiteralModel::Float(text)),
    ensures
        step_spec(m).1 == ActionModel::Numeric(RequestModel::Render(text)),
        answer is Some ==> resume_spec(step_spec(m).0, answer) == (State {
            tasks: m.tasks.drop_last(),
            values: m.values.push(answer->0),
            ..m
        }),
        answer is None ==> resume_spec(step_spec(m).0, answer).halted == Some(
            EvalError::NotNumeric,
        ),
{
}

/// Arithmetic is done on the operands' texts: the machine asks for the
/// operator applied to the two values on top of the value stack, the left
/// one below the right one, and the answer takes their place.
pub proof fn lemma_operator_asks_by_text(
    m: State,
    op: BinaryOp,
    answer: Option<Seq<char>>,
)
    requires
        m.halted is None,
        m.pending is None,
        m.tasks.len() > 0,
        m.tasks.last() == TaskModel::Binary(op),
        m.values.len() >= 2,
    ensures
        step_spec(m).1 == ActionModel::Numeric(
            RequestModel::Apply(op, m.values[m.values.len() - 2], m.values[m.values.len() - 1]),
        ),
        answer is Some ==> resume_spec(step_spec(m).0, answer).values == m.values.take(
            m.values.len() - 2,
        ).push(answer->0),
        answer is None ==> resume_spec(step_spec(m).0, answer).halted == Some(
            EvalError::NotNumeric,
        ),
{
}

/// A literal's tag is forgotten: an integer literal and the string literal
/// of its decimal rendering evaluate to the same state, so arithmetic
/// cannot tell them apart.
pub proof fn lemma_literal_tag_is_forgotten(m1: State, m2: State, e1: ExprModel, e2: ExprModel, n: i64)
    requires
        m1.halted is None && m1.pending is None && m1.tasks.len() > 0,
        m1.tasks.last() == TaskModel::Eval(e1),
        e1.kind == ExprKindModel::Literal(LiteralModel::Int(n)),
        e2.kind == ExprKindModel::Literal(LiteralModel::String(decimal(n as int))),
        m2 == (State { tasks: m1.tasks.drop_last().push(TaskModel::Eval(e2)), ..m1 }),
    ensures
        step_spec(m1) == step_spec(m2),
{
    assert(m2.tasks.drop_last() == m1.tasks.drop_last());
}

} // verus!
