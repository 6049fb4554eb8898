//! What a program means, stated as a recursive evaluation, and the proof
//! that the machine computes it.
//!
//! The meaning is relative to an oracle: a function that says, for each
//! numeric request, what its answer is. A call spends one unit of fuel, so
//! that the evaluation is defined for every program; where the fuel runs
//! out, the meaning is left unknown.

use vstd::prelude::*;
use crate::ast::{
    BinaryOp, ExprKindModel, ExprModel, LiteralModel, StatementKindModel, StatementModel,
};
use crate::number::decimal;
use crate::semantics::{
    below, bind, bracketed, joined, resume_spec, return_name, step_spec, top, tops, ActionModel,
    EvalError, FunctionModel, RequestModel, State, TaskModel,
};

verus! {

/// What a program can see and change: the variables, the functions, and
/// the lines printed so far.
pub struct World {
    pub variables: Map<Seq<char>, Seq<char>>,
    pub functions: Map<Seq<char>, FunctionModel>,
    pub printed: Seq<Seq<char>>,
}

/// How an evaluation ends.
pub enum Outcome<T> {
    /// With a result, in a world.
    Done(T, World),
    /// On an error, after these lines were printed.
    Stopped(EvalError, Seq<Seq<char>>),
    /// Not within the fuel given.
    Unknown,
}

/// The value of an expression.
///
/// An integer literal is its decimal rendering, a string literal its text,
/// a floating-point literal what the oracle renders its text to. An array
/// is the values of its elements, joined and bracketed. A variable is what
/// it is bound to. An operator is what the oracle answers for the values
/// of the left and the right operand. A call looks the function up,
/// evaluates as many arguments as the function has parameters, runs the
/// body in a mapping of those parameters alone, and is what `return` is
/// bound to afterwards; the caller's mapping is then active again.
pub open spec fn eval(
    o: spec_fn(RequestModel) -> Option<Seq<char>>,
    fuel: nat,
    w: World,
    e: ExprModel,
) -> Outcome<Seq<char>>
    decreases fuel, 0int, e, 0int,
{
    match e.kind {
        ExprKindModel::Literal(LiteralModel::Int(n)) => Outcome::Done(decimal(n as int), w),
        ExprKindModel::Literal(LiteralModel::Float(text)) => match o(RequestModel::Render(text)) {
            Some(v) => Outcome::Done(v, w),
            None => Outcome::Stopped(EvalError::NotNumeric, w.printed),
        },
        ExprKindModel::Literal(LiteralModel::String(text)) => Outcome::Done(text, w),
        ExprKindModel::Literal(LiteralModel::Array(elements)) => match eval_list(
            o,
            fuel,
            w,
            elements,
            0,
            elements.len() as int,
        ) {
            Outcome::Done(vs, w1) => Outcome::Done(bracketed(vs), w1),
            Outcome::Stopped(err, printed) => Outcome::Stopped(err, printed),
            Outcome::Unknown => Outcome::Unknown,
        },
        ExprKindModel::Variable(name) => if w.variables.contains_key(name) {
            Outcome::Done(w.variables[name], w)
        } else {
            Outcome::Stopped(EvalError::UnboundVariable, w.printed)
        },
        ExprKindModel::FunctionCall(name, args) => if !w.functions.contains_key(name) {
            Outcome::Stopped(EvalError::UnboundFunction, w.printed)
        } else {
            let f = w.functions[name];
            let n = if f.args.len() <= args.len() {
                f.args.len()
            } else {
                args.len()
            };
            match eval_list(o, fuel, w, args, 0, n as int) {
                Outcome::Done(vs, w1) => if fuel == 0 {
                    Outcome::Unknown
                } else {
                    match exec_list(
                        o,
                        (fuel - 1) as nat,
                        World { variables: bind(f.args.take(n as int), vs), ..w1 },
                        f.body,
                        0,
                    ) {
                        Outcome::Done(_, w2) => if w2.variables.contains_key(return_name()) {
                            Outcome::Done(
                                w2.variables[return_name()],
                                World { variables: w1.variables, ..w2 },
                            )
                        } else {
                            Outcome::Stopped(EvalError::MissingReturn, w2.printed)
                        },
                        Outcome::Stopped(err, printed) => Outcome::Stopped(err, printed),
                        Outcome::Unknown => Outcome::Unknown,
                    }
                },
                Outcome::Stopped(err, printed) => Outcome::Stopped(err, printed),
                Outcome::Unknown => Outcome::Unknown,
            }
        },
        ExprKindModel::BinaryOp(op, left, right) => match eval(o, fuel, w, *left) {
            Outcome::Done(lv, w1) => match eval(o, fuel, w1, *right) {
                Outcome::Done(rv, w2) => match o(RequestModel::Apply(op, lv, rv)) {
                    Some(v) => Outcome::Done(v, w2),
                    None => Outcome::Stopped(EvalError::NotNumeric, w2.printed),
                },
                Outcome::Stopped(err, printed) => Outcome::Stopped(err, printed),
                Outcome::Unknown => Outcome::Unknown,
            },
            Outcome::Stopped(err, printed) => Outcome::Stopped(err, printed),
            Outcome::Unknown => Outcome::Unknown,
        },
    }
}

/// The values of the expressions of `es` from place `i` up to, not
/// including, place `n`, evaluated in that order, each in the world that
/// the one before left.
pub open spec fn eval_list(
    o: spec_fn(RequestModel) -> Option<Seq<char>>,
    fuel: nat,
    w: World,
    es: Seq<ExprModel>,
    i: int,
    n: int,
) -> Outcome<Seq<Seq<char>>>
    decreases fuel, 0int, es, n - i,
{
    if i < 0 || i >= n || n > es.len() {
        Outcome::Done(Seq::empty(), w)
    } else {
        match eval(o, fuel, w, es[i]) {
            Outcome::Done(v, w1) => match eval_list(o, fuel, w1, es, i + 1, n) {
                Outcome::Done(vs, w2) => Outcome::Done(seq![v] + vs, w2),
                Outcome::Stopped(err, printed) => Outcome::Stopped(err, printed),
                Outcome::Unknown => Outcome::Unknown,
            },
            Outcome::Stopped(err, printed) => Outcome::Stopped(err, printed),
            Outcome::Unknown => Outcome::Unknown,
        }
    }
}

/// The world after a statement.
///
/// A declaration binds its name to the value of its initializer, replacing
/// what the name was bound to. A function declaration registers the
/// function, replacing one of the same name. A print statement adds one
/// line: the values of its arguments, joined. An expression statement
/// drops the value.
pub open spec fn exec(
    o: spec_fn(RequestModel) -> Option<Seq<char>>,
    fuel: nat,
    w: World,
    s: StatementModel,
) -> Outcome<()>
    decreases fuel, 1int, s, 0int,
{
    match s.kind {
        StatementKindModel::VariableDeclaration(name, e) => match eval(o, fuel, w, e) {
            Outcome::Done(v, w1) => Outcome::Done(
                (),
                World { variables: w1.variables.insert(name, v), ..w1 },
            ),
            Outcome::Stopped(err, printed) => Outcome::Stopped(err, printed),
            Outcome::Unknown => Outcome::Unknown,
        },
        StatementKindModel::FunctionDeclaration(name, args, body) => Outcome::Done(
            (),
            World { functions: w.functions.insert(name, FunctionModel { args, body }), ..w },
        ),
        StatementKindModel::PrintStatement(args) => match eval_list(
            o,
            fuel,
            w,
            args,
            0,
            args.len() as int,
        ) {
            Outcome::Done(vs, w1) => Outcome::Done(
                (),
                World { printed: w1.printed.push(joined(vs)), ..w1 },
            ),
            Outcome::Stopped(err, printed) => Outcome::Stopped(err, printed),
            Outcome::Unknown => Outcome::Unknown,
        },
        StatementKindModel::ExpressionStatement(e) => match eval(o, fuel, w, e) {
            Outcome::Done(_, w1) => Outcome::Done((), w1),
            Outcome::Stopped(err, printed) => Outcome::Stopped(err, printed),
            Outcome::Unknown => Outcome::Unknown,
        },
    }
}

/// The world after the statements of `ss` from place `i` on, in order.
pub open spec fn exec_list(
    o: spec_fn(RequestModel) -> Option<Seq<char>>,
    fuel: nat,
    w: World,
    ss: Seq<StatementModel>,
    i: int,
) -> Outcome<()>
    decreases fuel, 1int, ss, ss.len() - i,
{
    if i < 0 || i >= ss.len() {
        Outcome::Done((), w)
    } else {
        match exec(o, fuel, w, ss[i]) {
            Outcome::Done(_, w1) => exec_list(o, fuel, w1, ss, i + 1),
            Outcome::Stopped(err, printed) => Outcome::Stopped(err, printed),
            Outcome::Unknown => Outcome::Unknown,
        }
    }
}

/// A run of the machine: its state and the lines it has printed.
pub struct Run {
    pub state: State,
    pub printed: Seq<Seq<char>>,
}

/// One move of a run whose numeric requests the oracle answers: a waiting
/// machine takes the oracle's answer, any other machine takes a step, and
/// a printed line is added to the lines.
pub open spec fn oracle_move(o: spec_fn(RequestModel) -> Option<Seq<char>>, r: Run) -> Run {
    let m = r.state;
    if m.halted is None && m.pending is Some {
        Run { state: resume_spec(m, o(m.pending->0)), printed: r.printed }
    } else {
        Run {
            state: step_spec(m).0,
            printed: match step_spec(m).1 {
                ActionModel::Print(line) => r.printed.push(line),
                _ => r.printed,
            },
        }
    }
}

/// The run after `k` moves.
pub open spec fn drive(o: spec_fn(RequestModel) -> Option<Seq<char>>, r: Run, k: nat) -> Run
    decreases k,
{
    if k == 0 {
        r
    } else {
        oracle_move(o, drive(o, r, (k - 1) as nat))
    }
}

/// The run that is in the world `w` with the given stacks, neither waiting
/// nor stopped.
pub open spec fn at(w: World, tasks: Seq<TaskModel>, values: Seq<Seq<char>>) -> Run {
    Run {
        state: State {
            variables: w.variables,
            functions: w.functions,
            tasks,
            values,
            pending: None,
            halted: None,
        },
        printed: w.printed,
    }
}

/// Whether the run has stopped on `err` after printing `printed`.
pub open spec fn stopped(r: Run, err: EvalError, printed: Seq<Seq<char>>) -> bool {
    r.state.halted == Some(err) && r.printed == printed
}

/// Tasks that evaluate the expressions of `es` from place `i` up to, not
/// including, place `n`, in that order.
pub open spec fn waiting(es: Seq<ExprModel>, i: int, n: int) -> Seq<TaskModel> {
    Seq::new((n - i) as nat, |j: int| TaskModel::Eval(es[n - 1 - j]))
}

/// Tasks that execute the statements of `ss` from place `i` on, in order.
pub open spec fn waiting_execs(ss: Seq<StatementModel>, i: int) -> Seq<TaskModel> {
    Seq::new((ss.len() - i) as nat, |j: int| TaskModel::Exec(ss[ss.len() - 1 - j]))
}

/// Moves add up.
pub proof fn lemma_drive_add(
    o: spec_fn(RequestModel) -> Option<Seq<char>>,
    r: Run,
    a: nat,
    b: nat,
)
    ensures
        drive(o, r, a + b) == drive(o, drive(o, r, a), b),
    decreases b,
{
    if b > 0 {
        lemma_drive_add(o, r, a, (b - 1) as nat);
        assert((a + b - 1) as nat == a + (b - 1) as nat);
    }
}

/// A stopped run stays as it is.
pub proof fn lemma_drive_stopped(o: spec_fn(RequestModel) -> Option<Seq<char>>, r: Run, k: nat)
    requires
        r.state.halted is Some,
    ensures
        drive(o, r, k) == r,
    decreases k,
{
    if k > 0 {
        lemma_drive_stopped(o, r, (k - 1) as nat);
    }
}

/// One move on an expression whose value needs no further work.
proof fn lemma_move_plain(
    o: spec_fn(RequestModel) -> Option<Seq<char>>,
    w: World,
    e: ExprModel,
    base: Seq<TaskModel>,
    bv: Seq<Seq<char>>,
)
    requires
        e.kind matches ExprKindModel::Literal(l) ==> l is Int || l is String,
        e.kind is Literal || e.kind is Variable,
    ensures
        match eval(o, 0, w, e) {
            Outcome::Done(v, w1) => w1 == w && oracle_move(
                o,
                at(w, base.push(TaskModel::Eval(e)), bv),
            ) == at(w, base, bv.push(v)),
            Outcome::Stopped(err, printed) => stopped(
                oracle_move(o, at(w, base.push(TaskModel::Eval(e)), bv)),
                err,
                printed,
            ),
            Outcome::Unknown => false,
        },
{
    assert(base.push(TaskModel::Eval(e)).drop_last() == base);
}

/// Two moves on a floating-point literal: the request and its answer.
proof fn lemma_move_float(
    o: spec_fn(RequestModel) -> Option<Seq<char>>,
    w: World,
    e: ExprModel,
    text: Seq<char>,
    base: Seq<TaskModel>,
    bv: Seq<Seq<char>>,
)
    requires
        e.kind == ExprKindModel::Literal(LiteralModel::Float(text)),
    ensures
        match o(RequestModel::Render(text)) {
            Some(v) => drive(o, at(w, base.push(TaskModel::Eval(e)), bv), 2) == at(
                w,
                base,
                bv.push(v),
            ),
            None => stopped(
                drive(o, at(w, base.push(TaskModel::Eval(e)), bv), 2),
                EvalError::NotNumeric,
                w.printed,
            ),
        },
{
    let start = at(w, base.push(TaskModel::Eval(e)), bv);
    assert(base.push(TaskModel::Eval(e)).drop_last() == base);
    assert(drive(o, start, 1) == oracle_move(o, drive(o, start, 0)));
    assert(drive(o, start, 2) == oracle_move(o, drive(o, start, 1)));
}

/// One move that opens an array, a call or an operator, or stops on an
/// unknown function.
proof fn lemma_move_open(
    o: spec_fn(RequestModel) -> Option<Seq<char>>,
    w: World,
    e: ExprModel,
    base: Seq<TaskModel>,
    bv: Seq<Seq<char>>,
)
    ensures
        match e.kind {
            ExprKindModel::Literal(LiteralModel::Array(elements)) => oracle_move(
                o,
                at(w, base.push(TaskModel::Eval(e)), bv),
            ) == at(
                w,
                base.push(TaskModel::Array(elements.len())) + waiting(
                    elements,
                    0,
                    elements.len() as int,
                ),
                bv,
            ),
            ExprKindModel::FunctionCall(name, args) => if w.functions.contains_key(name) {
                let f = w.functions[name];
                let n = if f.args.len() <= args.len() {
                    f.args.len()
                } else {
                    args.len()
                };
                oracle_move(o, at(w, base.push(TaskModel::Eval(e)), bv)) == at(
                    w,
                    base.push(TaskModel::Call(f, n)) + waiting(args, 0, n as int),
                    bv,
                )
            } else {
                stopped(
                    oracle_move(o, at(w, base.push(TaskModel::Eval(e)), bv)),
                    EvalError::UnboundFunction,
                    w.printed,
                )
            },
            ExprKindModel::BinaryOp(op, left, right) => oracle_move(
                o,
                at(w, base.push(TaskModel::Eval(e)), bv),
            ) == at(
                w,
                base.push(TaskModel::Binary(op)).push(TaskModel::Eval(*right)).push(
                    TaskModel::Eval(*left),
                ),
                bv,
            ),
            _ => true,
        },
{
    assert(base.push(TaskModel::Eval(e)).drop_last() == base);
    let after = oracle_move(o, at(w, base.push(TaskModel::Eval(e)), bv));
    match e.kind {
        ExprKindModel::Literal(LiteralModel::Array(elements)) => {
            assert(after.state.tasks =~= base.push(TaskModel::Array(elements.len())) + waiting(
                elements,
                0,
                elements.len() as int,
            ));
        },
        ExprKindModel::FunctionCall(name, args) => {
            if w.functions.contains_key(name) {
                let f = w.functions[name];
                let n = if f.args.len() <= args.len() {
                    f.args.len()
                } else {
                    args.len()
                };
                assert(after.state.tasks =~= base.push(TaskModel::Call(f, n)) + waiting(
                    args,
                    0,
                    n as int,
                ));
            }
        },
        ExprKindModel::BinaryOp(op, left, right) => {
            assert(after.state.tasks =~= base.push(TaskModel::Binary(op)).push(
                TaskModel::Eval(*right),
            ).push(TaskModel::Eval(*left)));
        },
        _ => {},
    }
}

/// One move that closes an array: its values become one text.
proof fn lemma_move_array(
    o: spec_fn(RequestModel) -> Option<Seq<char>>,
    w: World,
    vs: Seq<Seq<char>>,
    base: Seq<TaskModel>,
    bv: Seq<Seq<char>>,
)
    ensures
        oracle_move(o, at(w, base.push(TaskModel::Array(vs.len())), bv + vs)) == at(
            w,
            base,
            bv.push(bracketed(vs)),
        ),
{
    let t = TaskModel::Array(vs.len());
    assert(base.push(t).drop_last() == base);
    assert(top(bv + vs, vs.len()) =~= vs);
    assert(below(bv + vs, vs.len()) =~= bv);
}

/// One move that enters a call: the arguments are bound in a fresh
/// mapping, the caller's mapping is saved, the body is scheduled.
proof fn lemma_move_enter(
    o: spec_fn(RequestModel) -> Option<Seq<char>>,
    w: World,
    f: FunctionModel,
    vs: Seq<Seq<char>>,
    base: Seq<TaskModel>,
    bv: Seq<Seq<char>>,
)
    ensures
        oracle_move(o, at(w, base.push(TaskModel::Call(f, vs.len())), bv + vs)) == at(
            World { variables: bind(f.args.take(vs.len() as int), vs), ..w },
            base.push(TaskModel::Return(w.variables)) + waiting_execs(f.body, 0),
            bv,
        ),
{
    let t = TaskModel::Call(f, vs.len());
    assert(base.push(t).drop_last() == base);
    assert(top(bv + vs, vs.len()) =~= vs);
    assert(below(bv + vs, vs.len()) =~= bv);
    let after = oracle_move(o, at(w, base.push(t), bv + vs));
    assert(after.state.tasks =~= base.push(TaskModel::Return(w.variables)) + waiting_execs(
        f.body,
        0,
    ));
}

/// One move that leaves a call: the value of `return` is pushed and the
/// saved mapping is active again; without `return` the run stops.
proof fn lemma_move_leave(
    o: spec_fn(RequestModel) -> Option<Seq<char>>,
    w: World,
    saved: Map<Seq<char>, Seq<char>>,
    base: Seq<TaskModel>,
    bv: Seq<Seq<char>>,
)
    ensures
        if w.variables.contains_key(return_name()) {
            oracle_move(o, at(w, base.push(TaskModel::Return(saved)), bv)) == at(
                World { variables: saved, ..w },
                base,
                bv.push(w.variables[return_name()]),
            )
        } else {
            stopped(
                oracle_move(o, at(w, base.push(TaskModel::Return(saved)), bv)),
                EvalError::MissingReturn,
                w.printed,
            )
        },
{
    assert(base.push(TaskModel::Return(saved)).drop_last() == base);
}

/// Two moves that close an operator: the request and its answer.
proof fn lemma_move_binary(
    o: spec_fn(RequestModel) -> Option<Seq<char>>,
    w: World,
    op: BinaryOp,
    lv: Seq<char>,
    rv: Seq<char>,
    base: Seq<TaskModel>,
    bv: Seq<Seq<char>>,
)
    ensures
        match o(RequestModel::Apply(op, lv, rv)) {
            Some(v) => drive(
                o,
                at(w, base.push(TaskModel::Binary(op)), bv.push(lv).push(rv)),
                2,
            ) == at(w, base, bv.push(v)),
            None => stopped(
                drive(o, at(w, base.push(TaskModel::Binary(op)), bv.push(lv).push(rv)), 2),
                EvalError::NotNumeric,
                w.printed,
            ),
        },
{
    let values = bv.push(lv).push(rv);
    let start = at(w, base.push(TaskModel::Binary(op)), values);
    assert(base.push(TaskModel::Binary(op)).drop_last() == base);
    assert(top(values, 2) =~= seq![lv, rv]);
    assert(below(values, 2) =~= bv);
    assert(drive(o, start, 1) == oracle_move(o, drive(o, start, 0)));
    assert(drive(o, start, 2) == oracle_move(o, drive(o, start, 1)));
}

/// One move that opens a statement, or carries it out where it is a
/// function declaration.
proof fn lemma_move_statement(
    o: spec_fn(RequestModel) -> Option<Seq<char>>,
    w: World,
    s: StatementModel,
    base: Seq<TaskModel>,
    bv: Seq<Seq<char>>,
)
    ensures
        oracle_move(o, at(w, base.push(TaskModel::Exec(s)), bv)) == (match s.kind {
            StatementKindModel::VariableDeclaration(name, e) => at(
                w,
                base.push(TaskModel::Bind(name)).push(TaskModel::Eval(e)),
                bv,
            ),
            StatementKindModel::FunctionDeclaration(name, args, body) => at(
                World { functions: w.functions.insert(name, FunctionModel { args, body }), ..w },
                base,
                bv,
            ),
            StatementKindModel::PrintStatement(args) => at(
                w,
                base.push(TaskModel::Print(args.len())) + waiting(args, 0, args.len() as int),
                bv,
            ),
            StatementKindModel::ExpressionStatement(e) => at(
                w,
                base.push(TaskModel::Discard).push(TaskModel::Eval(e)),
                bv,
            ),
        }),
{
    assert(base.push(TaskModel::Exec(s)).drop_last() == base);
    let after = oracle_move(o, at(w, base.push(TaskModel::Exec(s)), bv));
    match s.kind {
        StatementKindModel::VariableDeclaration(name, e) => {
            assert(after.state.tasks =~= base.push(TaskModel::Bind(name)).push(
                TaskModel::Eval(e),
            ));
        },
        StatementKindModel::FunctionDeclaration(name, args, body) => {},
        StatementKindModel::PrintStatement(args) => {
            assert(after.state.tasks =~= base.push(TaskModel::Print(args.len())) + waiting(
                args,
                0,
                args.len() as int,
            ));
        },
        StatementKindModel::ExpressionStatement(e) => {
            assert(after.state.tasks =~= base.push(TaskModel::Discard).push(TaskModel::Eval(e)));
        },
    }
}

/// One move that closes a statement: a value is bound, printed or
/// dropped.
proof fn lemma_move_close(
    o: spec_fn(RequestModel) -> Option<Seq<char>>,
    w: World,
    name: Seq<char>,
    v: Seq<char>,
    vs: Seq<Seq<char>>,
    base: Seq<TaskModel>,
    bv: Seq<Seq<char>>,
)
    ensures
        oracle_move(o, at(w, base.push(TaskModel::Bind(name)), bv.push(v))) == at(
            World { variables: w.variables.insert(name, v), ..w },
            base,
            bv,
        ),
        oracle_move(o, at(w, base.push(TaskModel::Discard), bv.push(v))) == at(w, base, bv),
        oracle_move(o, at(w, base.push(TaskModel::Print(vs.len())), bv + vs)) == at(
            World { printed: w.printed.push(joined(vs)), ..w },
            base,
            bv,
        ),
{
    assert(base.push(TaskModel::Bind(name)).drop_last() == base);
    assert(base.push(TaskModel::Discard).drop_last() == base);
    assert(base.push(TaskModel::Print(vs.len())).drop_last() == base);
    assert(below(bv.push(v), 1) =~= bv);
    assert(top(bv + vs, vs.len()) =~= vs);
    assert(below(bv + vs, vs.len()) =~= bv);
}

/// Whether the run `r` is where the evaluation of an expression over the
/// stacks `base` and `bv` ends: the value pushed, in the world that the
/// evaluation left, or stopped on its error.
pub open spec fn landed(
    out: Outcome<Seq<char>>,
    r: Run,
    base: Seq<TaskModel>,
    bv: Seq<Seq<char>>,
) -> bool {
    match out {
        Outcome::Done(v, w) => r == at(w, base, bv.push(v)),
        Outcome::Stopped(err, printed) => stopped(r, err, printed),
        Outcome::Unknown => true,
    }
}

/// The same for a list of expressions, whose values are pushed in order.
pub open spec fn landed_list(
    out: Outcome<Seq<Seq<char>>>,
    r: Run,
    base: Seq<TaskModel>,
    bv: Seq<Seq<char>>,
    count: int,
) -> bool {
    match out {
        Outcome::Done(vs, w) => vs.len() == count && r == at(w, base, bv + vs),
        Outcome::Stopped(err, printed) => stopped(r, err, printed),
        Outcome::Unknown => true,
    }
}

/// The same for statements, which leave the value stack as it was.
pub open spec fn landed_unit(
    out: Outcome<()>,
    r: Run,
    base: Seq<TaskModel>,
    bv: Seq<Seq<char>>,
) -> bool {
    match out {
        Outcome::Done(_, w) => r == at(w, base, bv),
        Outcome::Stopped(err, printed) => stopped(r, err, printed),
        Outcome::Unknown => true,
    }
}

/// One more move after `a` moves.
proof fn lemma_drive_next(o: spec_fn(RequestModel) -> Option<Seq<char>>, r: Run, a: nat)
    ensures
        drive(o, r, a + 1) == oracle_move(o, drive(o, r, a)),
        drive(o, r, 0) == r,
{
    assert((a + 1 - 1) as nat == a);
}

/// The machine computes the value of an expression: from a run that is
/// about to evaluate `e`, some number of moves leads to the run in which
/// the value is pushed, in the world that the evaluation left, or to the
/// run that has stopped on the evaluation's error.
pub proof fn lemma_eval(
    o: spec_fn(RequestModel) -> Option<Seq<char>>,
    fuel: nat,
    w: World,
    e: ExprModel,
    base: Seq<TaskModel>,
    bv: Seq<Seq<char>>,
) -> (k: nat)
    ensures
        landed(
            eval(o, fuel, w, e),
            drive(o, at(w, base.push(TaskModel::Eval(e)), bv), k),
            base,
            bv,
        ),
    decreases fuel, 0int, e, 0int,
{
    let start = at(w, base.push(TaskModel::Eval(e)), bv);
    lemma_drive_next(o, start, 0);
    match e.kind {
        ExprKindModel::Literal(LiteralModel::Int(n)) => {
            lemma_move_plain(o, w, e, base, bv);
            1
        },
        ExprKindModel::Literal(LiteralModel::String(text)) => {
            lemma_move_plain(o, w, e, base, bv);
            1
        },
        ExprKindModel::Variable(name) => {
            lemma_move_plain(o, w, e, base, bv);
            1
        },
        ExprKindModel::Literal(LiteralModel::Float(text)) => {
            lemma_move_float(o, w, e, text, base, bv);
            2
        },
        ExprKindModel::Literal(LiteralModel::Array(elements)) => {
            let n = elements.len();
            let under = base.push(TaskModel::Array(n));
            lemma_move_open(o, w, e, base, bv);
            let k1 = lemma_eval_list(o, fuel, w, elements, 0, n as int, under, bv);
            lemma_drive_add(o, start, 1, k1);
            match eval_list(o, fuel, w, elements, 0, n as int) {
                Outcome::Done(vs, w1) => {
                    lemma_move_array(o, w1, vs, base, bv);
                    lemma_drive_next(o, start, 1 + k1);
                    1 + k1 + 1
                },
                _ => 1 + k1,
            }
        },
        ExprKindModel::FunctionCall(name, args) => {
            lemma_move_open(o, w, e, base, bv);
            if !w.functions.contains_key(name) {
                1
            } else {
                let f = w.functions[name];
                let n = if f.args.len() <= args.len() {
                    f.args.len()
                } else {
                    args.len()
                };
                let under = base.push(TaskModel::Call(f, n));
                let k1 = lemma_eval_list(o, fuel, w, args, 0, n as int, under, bv);
                lemma_drive_add(o, start, 1, k1);
                match eval_list(o, fuel, w, args, 0, n as int) {
                    Outcome::Done(vs, w1) => {
                        if fuel == 0 {
                            0
                        } else {
                            let inside = World {
                                variables: bind(f.args.take(n as int), vs),
                                ..w1
                            };
                            let back = base.push(TaskModel::Return(w1.variables));
                            lemma_move_enter(o, w1, f, vs, base, bv);
                            lemma_drive_next(o, start, 1 + k1);
                            let k2 = lemma_exec_list(
                                o,
                                (fuel - 1) as nat,
                                inside,
                                f.body,
                                0,
                                back,
                                bv,
                            );
                            lemma_drive_add(o, start, 1 + k1 + 1, k2);
                            match exec_list(o, (fuel - 1) as nat, inside, f.body, 0) {
                                Outcome::Done(_, w2) => {
                                    lemma_move_leave(o, w2, w1.variables, base, bv);
                                    lemma_drive_next(o, start, 1 + k1 + 1 + k2);
                                    1 + k1 + 1 + k2 + 1
                                },
                                _ => 1 + k1 + 1 + k2,
                            }
                        }
                    },
                    _ => 1 + k1,
                }
            }
        },
        ExprKindModel::BinaryOp(op, left, right) => {
            let under = base.push(TaskModel::Binary(op));
            lemma_move_open(o, w, e, base, bv);
            let k1 = lemma_eval(o, fuel, w, *left, under.push(TaskModel::Eval(*right)), bv);
            lemma_drive_add(o, start, 1, k1);
            match eval(o, fuel, w, *left) {
                Outcome::Done(lv, w1) => {
                    let k2 = lemma_eval(o, fuel, w1, *right, under, bv.push(lv));
                    lemma_drive_add(o, start, 1 + k1, k2);
                    match eval(o, fuel, w1, *right) {
                        Outcome::Done(rv, w2) => {
                            lemma_move_binary(o, w2, op, lv, rv, base, bv);
                            lemma_drive_add(o, start, 1 + k1 + k2, 2);
                            1 + k1 + k2 + 2
                        },
                        _ => 1 + k1 + k2,
                    }
                },
                _ => 1 + k1,
            }
        },
    }
}

/// The machine computes the values of a list of expressions.
pub proof fn lemma_eval_list(
    o: spec_fn(RequestModel) -> Option<Seq<char>>,
    fuel: nat,
    w: World,
    es: Seq<ExprModel>,
    i: int,
    n: int,
    base: Seq<TaskModel>,
    bv: Seq<Seq<char>>,
) -> (k: nat)
    requires
        0 <= i <= n <= es.len(),
    ensures
        landed_list(
            eval_list(o, fuel, w, es, i, n),
            drive(o, at(w, base + waiting(es, i, n), bv), k),
            base,
            bv,
            n - i,
        ),
    decreases fuel, 0int, es, n - i,
{
    let start = at(w, base + waiting(es, i, n), bv);
    if i == n {
        assert(base + waiting(es, i, n) =~= base);
        assert(bv + Seq::<Seq<char>>::empty() =~= bv);
        0
    } else {
        let under = base + waiting(es, i + 1, n);
        assert(base + waiting(es, i, n) =~= under.push(TaskModel::Eval(es[i])));
        let k1 = lemma_eval(o, fuel, w, es[i], under, bv);
        match eval(o, fuel, w, es[i]) {
            Outcome::Done(v, w1) => {
                let k2 = lemma_eval_list(o, fuel, w1, es, i + 1, n, base, bv.push(v));
                lemma_drive_add(o, start, k1, k2);
                match eval_list(o, fuel, w1, es, i + 1, n) {
                    Outcome::Done(vs, w2) => {
                        assert(bv.push(v) + vs =~= bv + (seq![v] + vs));
                    },
                    _ => {},
                }
                k1 + k2
            },
            _ => k1,
        }
    }
}

/// The machine carries out a statement.
pub proof fn lemma_exec(
    o: spec_fn(RequestModel) -> Option<Seq<char>>,
    fuel: nat,
    w: World,
    s: StatementModel,
    base: Seq<TaskModel>,
    bv: Seq<Seq<char>>,
) -> (k: nat)
    ensures
        landed_unit(
            exec(o, fuel, w, s),
            drive(o, at(w, base.push(TaskModel::Exec(s)), bv), k),
            base,
            bv,
        ),
    decreases fuel, 1int, s, 0int,
{
    let start = at(w, base.push(TaskModel::Exec(s)), bv);
    lemma_drive_next(o, start, 0);
    lemma_move_statement(o, w, s, base, bv);
    match s.kind {
        StatementKindModel::VariableDeclaration(name, e) => {
            let k1 = lemma_eval(o, fuel, w, e, base.push(TaskModel::Bind(name)), bv);
            lemma_drive_add(o, start, 1, k1);
            match eval(o, fuel, w, e) {
                Outcome::Done(v, w1) => {
                    lemma_move_close(o, w1, name, v, Seq::empty(), base, bv);
                    lemma_drive_next(o, start, 1 + k1);
                    1 + k1 + 1
                },
                _ => 1 + k1,
            }
        },
        StatementKindModel::FunctionDeclaration(name, args, body) => 1,
        StatementKindModel::PrintStatement(args) => {
            let n = args.len();
            let k1 = lemma_eval_list(
                o,
                fuel,
                w,
                args,
                0,
                n as int,
                base.push(TaskModel::Print(n)),
                bv,
            );
            lemma_drive_add(o, start, 1, k1);
            match eval_list(o, fuel, w, args, 0, n as int) {
                Outcome::Done(vs, w1) => {
                    lemma_move_close(o, w1, Seq::empty(), Seq::empty(), vs, base, bv);
                    lemma_drive_next(o, start, 1 + k1);
                    1 + k1 + 1
                },
                _ => 1 + k1,
            }
        },
        StatementKindModel::ExpressionStatement(e) => {
            let k1 = lemma_eval(o, fuel, w, e, base.push(TaskModel::Discard), bv);
            lemma_drive_add(o, start, 1, k1);
            match eval(o, fuel, w, e) {
                Outcome::Done(v, w1) => {
                    lemma_move_close(o, w1, Seq::empty(), v, Seq::empty(), base, bv);
                    lemma_drive_next(o, start, 1 + k1);
                    1 + k1 + 1
                },
                _ => 1 + k1,
            }
        },
    }
}

/// The machine carries out a list of statements.
pub proof fn lemma_exec_list(
    o: spec_fn(RequestModel) -> Option<Seq<char>>,
    fuel: nat,
    w: World,
    ss: Seq<StatementModel>,
    i: int,
    base: Seq<TaskModel>,
    bv: Seq<Seq<char>>,
) -> (k: nat)
    requires
        0 <= i <= ss.len(),
    ensures
        landed_unit(
            exec_list(o, fuel, w, ss, i),
            drive(o, at(w, base + waiting_execs(ss, i), bv), k),
            base,
            bv,
        ),
    decreases fuel, 1int, ss, ss.len() - i,
{
    let start = at(w, base + waiting_execs(ss, i), bv);
    if i == ss.len() {
        assert(base + waiting_execs(ss, i) =~= base);
        0
    } else {
        let under = base + waiting_execs(ss, i + 1);
        assert(base + waiting_execs(ss, i) =~= under.push(TaskModel::Exec(ss[i])));
        let k1 = lemma_exec(o, fuel, w, ss[i], under, bv);
        match exec(o, fuel, w, ss[i]) {
            Outcome::Done(_, w1) => {
                let k2 = lemma_exec_list(o, fuel, w1, ss, i + 1, base, bv);
                lemma_drive_add(o, start, k1, k2);
                k1 + k2
            },
            _ => k1,
        }
    }
}

/// The machine runs a program: from a run with the statements of `ss` from
/// place `i` on scheduled as top-level statements, some number of moves
/// leads to the run in the world that executing them in order leaves, with
/// the stacks as they were, or to the run that has stopped on the first
/// error.
pub proof fn lemma_program(
    o: spec_fn(RequestModel) -> Option<Seq<char>>,
    fuel: nat,
    w: World,
    ss: Seq<StatementModel>,
    i: int,
    base: Seq<TaskModel>,
    bv: Seq<Seq<char>>,
) -> (k: nat)
    requires
        0 <= i <= ss.len(),
    ensures
        landed_unit(
            exec_list(o, fuel, w, ss, i),
            drive(o, at(w, base + tops(ss).take(ss.len() - i), bv), k),
            base,
            bv,
        ),
    decreases ss.len() - i,
{
    let all = tops(ss);
    let start = at(w, base + all.take(ss.len() - i), bv);
    if i == ss.len() {
        assert(base + all.take(0) =~= base);
        0
    } else {
        let under = base + all.take(ss.len() - i - 1);
        assert(base + all.take(ss.len() - i) =~= under.push(TaskModel::Top(ss[i])));
        assert(under.push(TaskModel::Top(ss[i])).drop_last() == under);
        lemma_drive_next(o, start, 0);
        assert(oracle_move(o, start) == at(w, under.push(TaskModel::Exec(ss[i])), bv)) by {
            assert(oracle_move(o, start).state.tasks =~= under.push(TaskModel::Exec(ss[i])));
        }
        let k1 = lemma_exec(o, fuel, w, ss[i], under, bv);
        lemma_drive_add(o, start, 1, k1);
        match exec(o, fuel, w, ss[i]) {
            Outcome::Done(_, w1) => {
                let k2 = lemma_program(o, fuel, w1, ss, i + 1, base, bv);
                lemma_drive_add(o, start, 1 + k1, k2);
                1 + k1 + k2
            },
            _ => 1 + k1,
        }
    }
}

/// Evaluating an expression leaves the variables as they were: whatever a
/// call binds is gone when the call is over.
pub proof fn lemma_eval_keeps_variables(
    o: spec_fn(RequestModel) -> Option<Seq<char>>,
    fuel: nat,
    w: World,
    e: ExprModel,
)
    ensures
        eval(o, fuel, w, e) matches Outcome::Done(_, w1) ==> w1.variables == w.variables,
    decreases fuel, 0int, e, 0int,
{
    match e.kind {
        ExprKindModel::Literal(LiteralModel::Array(elements)) => {
            lemma_eval_list_keeps_variables(o, fuel, w, elements, 0, elements.len() as int);
        },
        ExprKindModel::FunctionCall(name, args) => {
            if w.functions.contains_key(name) {
                let f = w.functions[name];
                let n = if f.args.len() <= args.len() {
                    f.args.len()
                } else {
                    args.len()
                };
                lemma_eval_list_keeps_variables(o, fuel, w, args, 0, n as int);
            }
        },
        ExprKindModel::BinaryOp(op, left, right) => {
            lemma_eval_keeps_variables(o, fuel, w, *left);
            match eval(o, fuel, w, *left) {
                Outcome::Done(_, w1) => {
                    lemma_eval_keeps_variables(o, fuel, w1, *right);
                },
                _ => {},
            }
        },
        _ => {},
    }
}

/// Evaluating a list of expressions leaves the variables as they were.
pub proof fn lemma_eval_list_keeps_variables(
    o: spec_fn(RequestModel) -> Option<Seq<char>>,
    fuel: nat,
    w: World,
    es: Seq<ExprModel>,
    i: int,
    n: int,
)
    ensures
        eval_list(o, fuel, w, es, i, n) matches Outcome::Done(_, w1) ==> w1.variables
            == w.variables,
    decreases fuel, 0int, es, n - i,
{
    if 0 <= i < n <= es.len() {
        lemma_eval_keeps_variables(o, fuel, w, es[i]);
        match eval(o, fuel, w, es[i]) {
            Outcome::Done(_, w1) => {
                lemma_eval_list_keeps_variables(o, fuel, w1, es, i + 1, n);
            },
            _ => {},
        }
    }
}

/// Declaring a name twice leaves only the later binding: the variables
/// after both declarations are the ones from before with the name bound to
/// the value of the second initializer, evaluated after the first
/// declaration.
pub proof fn lemma_later_declaration_wins(
    o: spec_fn(RequestModel) -> Option<Seq<char>>,
    fuel: nat,
    w: World,
    s1: StatementModel,
    s2: StatementModel,
    name: Seq<char>,
    e1: ExprModel,
    e2: ExprModel,
)
    requires
        s1.kind == StatementKindModel::VariableDeclaration(name, e1),
        s2.kind == StatementKindModel::VariableDeclaration(name, e2),
    ensures
        match exec(o, fuel, w, s1) {
            Outcome::Done(_, w1) => match eval(o, fuel, w1, e2) {
                Outcome::Done(v2, _) => exec_list(o, fuel, w, seq![s1, s2], 0) matches Outcome::Done(
                    _,
                    w2,
                ) && w2.variables == w.variables.insert(name, v2),
                _ => true,
            },
            _ => true,
        },
{
    let ss = seq![s1, s2];
    assert(ss[0] == s1 && ss[1] == s2);
    lemma_eval_keeps_variables(o, fuel, w, e1);
    match exec(o, fuel, w, s1) {
        Outcome::Done(_, w1) => {
            lemma_eval_keeps_variables(o, fuel, w1, e2);
            match eval(o, fuel, w1, e2) {
                Outcome::Done(v2, w2) => {
                    let v1 = eval(o, fuel, w, e1)->Done_0;
                    assert(w.variables.insert(name, v1).insert(name, v2) =~= w.variables.insert(
                        name,
                        v2,
                    ));
                    let end = World { variables: w2.variables.insert(name, v2), ..w2 };
                    assert(exec(o, fuel, w1, s2) == Outcome::Done((), end));
                    assert(exec_list(o, fuel, end, ss, 2) == Outcome::Done((), end));
                    assert(exec_list(o, fuel, w1, ss, 1) == Outcome::Done((), end));
                },
                _ => {},
            }
        },
        _ => {},
    }
}

/// A call sees nothing of the caller's variables but the values of its
/// arguments: two worlds that agree on the functions, and in which the
/// arguments come to the same values and leave the same functions and
/// lines, give the call the same value, the same error and the same lines.
pub proof fn lemma_call_depends_on_arguments_only(
    o: spec_fn(RequestModel) -> Option<Seq<char>>,
    fuel: nat,
    wa: World,
    wb: World,
    e: ExprModel,
    name: Seq<char>,
    args: Seq<ExprModel>,
)
    requires
        e.kind == ExprKindModel::FunctionCall(name, args),
        wa.functions == wb.functions,
        wa.functions.contains_key(name),
        ({
            let f = wa.functions[name];
            let n = if f.args.len() <= args.len() {
                f.args.len()
            } else {
                args.len()
            };
            match (eval_list(o, fuel, wa, args, 0, n as int), eval_list(o, fuel, wb, args, 0, n as int)) {
                (Outcome::Done(va, a), Outcome::Done(vb, b)) => va == vb && a.functions
                    == b.functions && a.printed == b.printed,
                _ => false,
            }
        }),
    ensures
        match (eval(o, fuel, wa, e), eval(o, fuel, wb, e)) {
            (Outcome::Done(va, a), Outcome::Done(vb, b)) => va == vb && a.functions == b.functions
                && a.printed == b.printed,
            (Outcome::Stopped(ea, pa), Outcome::Stopped(eb, pb)) => ea == eb && pa == pb,
            (Outcome::Unknown, Outcome::Unknown) => true,
            _ => false,
        },
{
    let f = wa.functions[name];
    let n = if f.args.len() <= args.len() {
        f.args.len()
    } else {
        args.len()
    };
    let a = eval_list(o, fuel, wa, args, 0, n as int)->Done_1;
    let b = eval_list(o, fuel, wb, args, 0, n as int)->Done_1;
    let vs = eval_list(o, fuel, wa, args, 0, n as int)->Done_0;
    assert((World { variables: bind(f.args.take(n as int), vs), ..a }) == (World {
        variables: bind(f.args.take(n as int), vs),
        ..b
    }));
}

/// A literal's value: an integer is its canonical decimal rendering, a
/// string is its text, and a floating-point number is what the oracle
/// renders its text to.
pub proof fn lemma_literal_value(
    o: spec_fn(RequestModel) -> Option<Seq<char>>,
    fuel: nat,
    w: World,
    e: ExprModel,
)
    ensures
        e.kind matches ExprKindModel::Literal(LiteralModel::Int(n)) ==> eval(o, fuel, w, e)
            == Outcome::Done(decimal(n as int), w),
        e.kind matches ExprKindModel::Literal(LiteralModel::String(text)) ==> eval(o, fuel, w, e)
            == Outcome::Done(text, w),
        e.kind matches ExprKindModel::Literal(LiteralModel::Float(text)) ==> eval(o, fuel, w, e)
            == (match o(RequestModel::Render(text)) {
            Some(v) => Outcome::Done(v, w),
            None => Outcome::Stopped(EvalError::NotNumeric, w.printed),
        }),
{
}

/// An operator's value is what the oracle answers for the operator and the
/// texts that its operands came to, the left one evaluated first.
pub proof fn lemma_operator_value(
    o: spec_fn(RequestModel) -> Option<Seq<char>>,
    fuel: nat,
    w: World,
    e: ExprModel,
    op: BinaryOp,
    left: ExprModel,
    right: ExprModel,
)
    requires
        e.kind == ExprKindModel::BinaryOp(op, Box::new(left), Box::new(right)),
        eval(o, fuel, w, left) is Done,
        eval(o, fuel, eval(o, fuel, w, left)->Done_1, right) is Done,
    ensures
        ({
            let lv = eval(o, fuel, w, left)->Done_0;
            let w1 = eval(o, fuel, w, left)->Done_1;
            let rv = eval(o, fuel, w1, right)->Done_0;
            let w2 = eval(o, fuel, w1, right)->Done_1;
            eval(o, fuel, w, e) == (match o(RequestModel::Apply(op, lv, rv)) {
                Some(v) => Outcome::Done(v, w2),
                None => Outcome::Stopped(EvalError::NotNumeric, w2.printed),
            })
        }),
{
}

/// Arithmetic cannot tell an integer literal from the string literal of
/// its rendering: as an operand either gives the operator the same value.
pub proof fn lemma_operand_kind_is_forgotten(
    o: spec_fn(RequestModel) -> Option<Seq<char>>,
    fuel: nat,
    w: World,
    op: BinaryOp,
    n: i64,
    a: ExprModel,
    b: ExprModel,
    other: ExprModel,
    e1: ExprModel,
    e2: ExprModel,
    e3: ExprModel,
    e4: ExprModel,
)
    requires
        a.kind == ExprKindModel::Literal(LiteralModel::Int(n)),
        b.kind == ExprKindModel::Literal(LiteralModel::String(decimal(n as int))),
        e1.kind == ExprKindModel::BinaryOp(op, Box::new(a), Box::new(other)),
        e2.kind == ExprKindModel::BinaryOp(op, Box::new(b), Box::new(other)),
        e3.kind == ExprKindModel::BinaryOp(op, Box::new(other), Box::new(a)),
        e4.kind == ExprKindModel::BinaryOp(op, Box::new(other), Box::new(b)),
    ensures
        eval(o, fuel, w, e1) == eval(o, fuel, w, e2),
        eval(o, fuel, w, e3) == eval(o, fuel, w, e4),
{
    match eval(o, fuel, w, other) {
        Outcome::Done(v, w1) => {
            assert(eval(o, fuel, w1, a) == eval(o, fuel, w1, b));
        },
        _ => {},
    }
    assert(eval(o, fuel, w, a) == eval(o, fuel, w, b));
}

} // verus!
