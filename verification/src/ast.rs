//! The syntax tree: expressions, statements and programs, with the
//! mathematical model of each.

use vstd::prelude::*;

verus! {

/// An arithmetic operator.
#[derive(Debug, Clone, Copy, PartialEq, Eq, Structural)]
pub enum BinaryOp {
    Add,
    Sub,
    Mul,
    Div,
}

/// An expression together with the place it was read from.
#[derive(Debug, PartialEq, Eq)]
pub struct Expr {
    pub kind: ExprKind,
    pub line: usize,
    pub file: String,
}

/// What an expression is.
#[derive(Debug, PartialEq, Eq)]
pub enum ExprKind {
    Literal(Literal),
    Variable(String),
    FunctionCall(String, Vec<Expr>),
    BinaryOp(BinaryOp, Box<Expr>, Box<Expr>),
}

/// A literal value. A floating-point literal keeps the text it was written
/// with; the elements of an array are expressions, evaluated when the array
/// is used.
#[derive(Debug, PartialEq, Eq)]
pub enum Literal {
    Int(i64),
    Float(String),
    String(String),
    Array(Vec<Expr>),
}

/// The model of an [`Expr`].
pub struct ExprModel {
    pub kind: ExprKindModel,
    pub line: nat,
    pub file: Seq<char>,
}

/// The model of an [`ExprKind`].
pub enum ExprKindModel {
    Literal(LiteralModel),
    Variable(Seq<char>),
    FunctionCall(Seq<char>, Seq<ExprModel>),
    BinaryOp(BinaryOp, Box<ExprModel>, Box<ExprModel>),
}

/// The model of a [`Literal`].
pub enum LiteralModel {
    Int(i64),
    Float(Seq<char>),
    String(Seq<char>),
    Array(Seq<ExprModel>),
}

/// The model of the expression `e`.
pub open spec fn expr_model(e: Expr) -> ExprModel
    decreases e,
{
    ExprModel { kind: kind_model(e.kind), line: e.line as nat, file: e.file@ }
}

/// The models of the expressions in `v`, in order.
pub open spec fn exprs_model(v: Vec<Expr>) -> Seq<ExprModel>
    decreases v,
{
    Seq::new(
        v.len() as nat,
        |i: int|
            if 0 <= i < v.len() {
                expr_model(v[i])
            } else {
                arbitrary()
            },
    )
}

/// The model of the expression kind `k`.
pub open spec fn kind_model(k: ExprKind) -> ExprKindModel
    decreases k,
{
    match k {
        ExprKind::Literal(l) => ExprKindModel::Literal(literal_model(l)),
        ExprKind::Variable(name) => ExprKindModel::Variable(name@),
        ExprKind::FunctionCall(name, args) => ExprKindModel::FunctionCall(
            name@,
            exprs_model(args),
        ),
        ExprKind::BinaryOp(op, left, right) => ExprKindModel::BinaryOp(
            op,
            Box::new(expr_model(*left)),
            Box::new(expr_model(*right)),
        ),
    }
}

/// The model of the literal `l`.
pub open spec fn literal_model(l: Literal) -> LiteralModel
    decreases l,
{
    match l {
        Literal::Int(n) => LiteralModel::Int(n),
        Literal::Float(text) => LiteralModel::Float(text@),
        Literal::String(text) => LiteralModel::String(text@),
        Literal::Array(elements) => LiteralModel::Array(exprs_model(elements)),
    }
}

impl View for Expr {
    type V = ExprModel;

    open spec fn view(&self) -> ExprModel {
        expr_model(*self)
    }
}

/// A copy of `l`.
pub fn clone_literal(l: &Literal) -> (r: Literal)
    ensures
        literal_model(r) == literal_model(*l),
    decreases l,
{
    match l {
        Literal::Int(n) => Literal::Int(*n),
        Literal::Float(text) => Literal::Float(text.clone()),
        Literal::String(text) => Literal::String(text.clone()),
        Literal::Array(elements) => Literal::Array(clone_exprs(elements)),
    }
}

/// A copy of `e`.
pub fn clone_expr(e: &Expr) -> (r: Expr)
    ensures
        r@ == e@,
    decreases e,
{
    let kind = match &e.kind {
        ExprKind::Literal(l) => ExprKind::Literal(clone_literal(l)),
        ExprKind::Variable(name) => ExprKind::Variable(name.clone()),
        ExprKind::FunctionCall(name, args) => ExprKind::FunctionCall(
            name.clone(),
            clone_exprs(args),
        ),
        ExprKind::BinaryOp(op, left, right) => {
            let l = clone_expr(left);
            let r = clone_expr(right);
            assert(expr_model(l) == expr_model(**left));
            assert(expr_model(r) == expr_model(**right));
            ExprKind::BinaryOp(*op, Box::new(l), Box::new(r))
        },
    };
    assert(kind_model(kind) == kind_model(e.kind));
    Expr { kind, line: e.line, file: e.file.clone() }
}

/// A copy of each expression in `v`, in order.
pub fn clone_exprs(v: &Vec<Expr>) -> (r: Vec<Expr>)
    ensures
        exprs_model(r) == exprs_model(*v),
    decreases v,
{
    let mut r: Vec<Expr> = Vec::new();
    let mut i: usize = 0;
    while i < v.len()
        invariant
            i <= v.len(),
            r.len() == i,
            forall|j: int| 0 <= j < i ==> (#[trigger] r[j])@ == v[j]@,
        decreases v.len() - i,
    {
        r.push(clone_expr(&v[i]));
        i += 1;
    }
    assert(exprs_model(r) =~= exprs_model(*v));
    r
}

impl Clone for Expr {
    fn clone(&self) -> (r: Self)
        ensures
            r@ == self@,
    {
        clone_expr(self)
    }
}

/// A statement together with the place it was read from.
#[derive(Debug, PartialEq, Eq)]
pub struct Statement {
    pub kind: StatementKind,
    pub line: usize,
    pub file: String,
}

/// What a statement is.
#[derive(Debug, PartialEq, Eq)]
pub enum StatementKind {
    /// Binds a name to the value of an expression.
    VariableDeclaration(String, Expr),
    /// Registers a function: its name, its parameters, its body.
    FunctionDeclaration(String, Vec<String>, Vec<Statement>),
    /// Writes the values of the expressions as one line.
    PrintStatement(Vec<Expr>),
    /// Evaluates an expression and drops its value.
    ExpressionStatement(Expr),
}

/// The statements of one source text, in order.
#[derive(Debug, PartialEq, Eq)]
pub struct Program {
    pub statements: Vec<Statement>,
}

/// The model of a [`Statement`].
pub struct StatementModel {
    pub kind: StatementKindModel,
    pub line: nat,
    pub file: Seq<char>,
}

/// The model of a [`StatementKind`].
pub enum StatementKindModel {
    VariableDeclaration(Seq<char>, ExprModel),
    FunctionDeclaration(Seq<char>, Seq<Seq<char>>, Seq<StatementModel>),
    PrintStatement(Seq<ExprModel>),
    ExpressionStatement(ExprModel),
}

/// The texts of the strings in `v`, in order.
pub open spec fn names_model(v: Vec<String>) -> Seq<Seq<char>> {
    Seq::new(v.len() as nat, |i: int| v[i]@)
}

/// The model of the statement `s`.
pub open spec fn statement_model(s: Statement) -> StatementModel
    decreases s,
{
    StatementModel { kind: statement_kind_model(s.kind), line: s.line as nat, file: s.file@ }
}

/// The models of the statements in `v`, in order.
pub open spec fn statements_model(v: Vec<Statement>) -> Seq<StatementModel>
    decreases v,
{
    Seq::new(
        v.len() as nat,
        |i: int|
            if 0 <= i < v.len() {
                statement_model(v[i])
            } else {
                arbitrary()
            },
    )
}

/// The model of the statement kind `k`.
pub open spec fn statement_kind_model(k: StatementKind) -> StatementKindModel
    decreases k,
{
    match k {
        StatementKind::VariableDeclaration(name, e) => StatementKindModel::VariableDeclaration(
            name@,
            expr_model(e),
        ),
        StatementKind::FunctionDeclaration(name, params, body) =>
            StatementKindModel::FunctionDeclaration(
            name@,
            names_model(params),
            statements_model(body),
        ),
        StatementKind::PrintStatement(args) => StatementKindModel::PrintStatement(
            exprs_model(args),
        ),
        StatementKind::ExpressionStatement(e) => StatementKindModel::ExpressionStatement(
            expr_model(e),
        ),
    }
}

impl View for Statement {
    type V = StatementModel;

    open spec fn view(&self) -> StatementModel {
        statement_model(*self)
    }
}

impl View for Program {
    type V = Seq<StatementModel>;

    open spec fn view(&self) -> Seq<StatementModel> {
        statements_model(self.statements)
    }
}

/// A copy of each string in `v`, in order.
pub fn clone_names(v: &Vec<String>) -> (r: Vec<String>)
    ensures
        names_model(r) == names_model(*v),
{
    let mut r: Vec<String> = Vec::new();
    let mut i: usize = 0;
    while i < v.len()
        invariant
            i <= v.len(),
            r.len() == i,
            forall|j: int| 0 <= j < i ==> (#[trigger] r[j])@ == v[j]@,
        decreases v.len() - i,
    {
        r.push(v[i].clone());
        i += 1;
    }
    assert(names_model(r) =~= names_model(*v));
    r
}

/// A copy of `s`.
pub fn clone_statement(s: &Statement) -> (r: Statement)
    ensures
        r@ == s@,
    decreases s,
{
    let kind = match &s.kind {
        StatementKind::VariableDeclaration(name, e) => StatementKind::VariableDeclaration(
            name.clone(),
            clone_expr(e),
        ),
        StatementKind::FunctionDeclaration(name, params, body) =>
            StatementKind::FunctionDeclaration(
            name.clone(),
            clone_names(params),
            clone_statements(body),
        ),
        StatementKind::PrintStatement(args) => StatementKind::PrintStatement(clone_exprs(args)),
        StatementKind::ExpressionStatement(e) => StatementKind::ExpressionStatement(
            clone_expr(e),
        ),
    };
    assert(statement_kind_model(kind) == statement_kind_model(s.kind));
    Statement { kind, line: s.line, file: s.file.clone() }
}

/// A copy of each statement in `v`, in order.
pub fn clone_statements(v: &Vec<Statement>) -> (r: Vec<Statement>)
    ensures
        statements_model(r) == statements_model(*v),
    decreases v,
{
    let mut r: Vec<Statement> = Vec::new();
    let mut i: usize = 0;
    while i < v.len()
        invariant
            i <= v.len(),
            r.len() == i,
            forall|j: int| 0 <= j < i ==> (#[trigger] r[j])@ == v[j]@,
        decreases v.len() - i,
    {
        r.push(clone_statement(&v[i]));
        i += 1;
    }
    assert(statements_model(r) =~= statements_model(*v));
    r
}

impl Clone for Statement {
    fn clone(&self) -> (r: Self)
        ensures
            r@ == self@,
    {
        clone_statement(self)
    }
}

impl Clone for Program {
    fn clone(&self) -> (r: Self)
        ensures
            r@ == self@,
    {
        Program { statements: clone_statements(&self.statements) }
    }
}

/// An expression node at the given place.
pub open spec fn node(kind: ExprKindModel, line: nat, file: Seq<char>) -> ExprModel {
    ExprModel { kind, line, file }
}

/// A statement node at the given place.
pub open spec fn statement_node(kind: StatementKindModel, line: nat, file: Seq<char>)
    -> StatementModel {
    StatementModel { kind, line, file }
}

impl Expr {
    /// An integer literal.
    pub fn integer(value: i64, line: usize, file: String) -> (r: Expr)
        ensures
            r@ == node(ExprKindModel::Literal(LiteralModel::Int(value)), line as nat, file@),
    {
        let kind = ExprKind::Literal(Literal::Int(value));
        assert(kind_model(kind) == ExprKindModel::Literal(LiteralModel::Int(value)));
        Expr { kind, line, file }
    }

    /// A floating-point literal, given by its text.
    pub fn floating(text: String, line: usize, file: String) -> (r: Expr)
        ensures
            r@ == node(ExprKindModel::Literal(LiteralModel::Float(text@)), line as nat, file@),
    {
        let kind = ExprKind::Literal(Literal::Float(text));
        assert(kind_model(kind) == ExprKindModel::Literal(LiteralModel::Float(text@)));
        Expr { kind, line, file }
    }

    /// A string literal.
    pub fn text(text: String, line: usize, file: String) -> (r: Expr)
        ensures
            r@ == node(ExprKindModel::Literal(LiteralModel::String(text@)), line as nat, file@),
    {
        let kind = ExprKind::Literal(Literal::String(text));
        assert(kind_model(kind) == ExprKindModel::Literal(LiteralModel::String(text@)));
        Expr { kind, line, file }
    }

    /// An array literal.
    pub fn array(elements: Vec<Expr>, line: usize, file: String) -> (r: Expr)
        ensures
            r@ == node(
                ExprKindModel::Literal(LiteralModel::Array(exprs_model(elements))),
                line as nat,
                file@,
            ),
    {
        let ghost model = exprs_model(elements);
        let kind = ExprKind::Literal(Literal::Array(elements));
        assert(kind_model(kind) == ExprKindModel::Literal(LiteralModel::Array(model)));
        Expr { kind, line, file }
    }

    /// A reference to a variable.
    pub fn variable(name: String, line: usize, file: String) -> (r: Expr)
        ensures
            r@ == node(ExprKindModel::Variable(name@), line as nat, file@),
    {
        Expr { kind: ExprKind::Variable(name), line, file }
    }

    /// A call of a function.
    pub fn call(name: String, args: Vec<Expr>, line: usize, file: String) -> (r: Expr)
        ensures
            r@ == node(ExprKindModel::FunctionCall(name@, exprs_model(args)), line as nat, file@),
    {
        Expr { kind: ExprKind::FunctionCall(name, args), line, file }
    }

    /// An operator applied to two expressions.
    pub fn binary(op: BinaryOp, left: Expr, right: Expr, line: usize, file: String) -> (r: Expr)
        ensures
            r@ == node(
                ExprKindModel::BinaryOp(op, Box::new(left@), Box::new(right@)),
                line as nat,
                file@,
            ),
    {
        let ghost l = left@;
        let ghost r = right@;
        let kind = ExprKind::BinaryOp(op, Box::new(left), Box::new(right));
        assert(kind_model(kind) == ExprKindModel::BinaryOp(op, Box::new(l), Box::new(r)));
        Expr { kind, line, file }
    }
}

/// The empty vector has the empty model, and a push is a push on the model.
pub proof fn lemma_exprs_push(v: Vec<Expr>, w: Vec<Expr>, e: Expr)
    requires
        w@ == v@.push(e),
    ensures
        exprs_model(w) == exprs_model(v).push(e@),
{
    assert(exprs_model(w) =~= exprs_model(v).push(e@));
}

} // verus!
