//! The parser: from source text to a [`Program`].

use vstd::prelude::*;
use crate::ast::{
    exprs_model, lemma_exprs_push, names_model, statement_kind_model, statements_model,
    BinaryOp, Expr, ExprModel, Program, Statement, StatementKind, StatementKindModel,
    StatementModel,
};
use crate::grammar::{
    fold_ops, inner, operator_of, parse_expr_spec, parse_lines_spec, parse_list_spec,
    parse_spec, parse_statement_spec, parse_term_spec, trimmed_all, word_fn, word_let,
    word_print, ParseError,
};
use crate::number::{is_float_literal, parse_int};
use crate::scan::{
    fields, find, lemma_fields_len, lines, lemma_tokens, lemma_trimmed_len, rfind, split_fields,
    split_lines, split_tokens, tokens, trim, trimmed, views,
};
use crate::text::{from_chars, slice, to_chars};

verus! {

/// The model of a parsed expression, or the error.
pub open spec fn expr_result(r: Result<Expr, ParseError>) -> Result<ExprModel, ParseError> {
    match r {
        Ok(e) => Ok(e@),
        Err(x) => Err(x),
    }
}

/// The models of parsed expressions, or the error.
pub open spec fn list_result(r: Result<Vec<Expr>, ParseError>) -> Result<
    Seq<ExprModel>,
    ParseError,
> {
    match r {
        Ok(v) => Ok(exprs_model(v)),
        Err(x) => Err(x),
    }
}

/// An error among the first items is the error of the whole list.
proof fn lemma_list_prefix_error(
    items: Seq<Seq<char>>,
    k: int,
    bound: nat,
    line: nat,
    file: Seq<char>,
)
    requires
        0 <= k <= items.len(),
        parse_list_spec(items.take(k), bound, line, file) is Err,
    ensures
        parse_list_spec(items, bound, line, file) == parse_list_spec(
            items.take(k),
            bound,
            line,
            file,
        ),
    decreases items.len(),
{
    if k == items.len() {
        assert(items.take(k) == items);
    } else {
        assert(items.drop_last().take(k) == items.take(k));
        lemma_list_prefix_error(items.drop_last(), k, bound, line, file);
    }
}

/// The operator that the token `t` spells.
fn operator(t: &Vec<char>) -> (r: Option<BinaryOp>)
    ensures
        r == operator_of(t@),
{
    if t.len() != 1 {
        return None;
    }
    let c = t[0];
    assert(t@ =~= seq![c]);
    if c == '+' {
        Some(BinaryOp::Add)
    } else if c == '-' {
        Some(BinaryOp::Sub)
    } else if c == '*' {
        Some(BinaryOp::Mul)
    } else if c == '/' {
        Some(BinaryOp::Div)
    } else {
        assert(seq!['+'][0] == '+' && seq!['-'][0] == '-' && seq!['*'][0] == '*' && seq!['/'][0]
            == '/');
        None
    }
}

/// The term that the token `t` denotes.
fn term(t: &Vec<char>, line: usize, file: &String) -> (r: Result<Expr, ParseError>)
    ensures
        expr_result(r) == parse_term_spec(t@, line as nat, file@),
    decreases t@.len(), 0int, 0int,
{
    let n = t.len();
    if let Some(value) = parse_int(t) {
        return Ok(Expr::integer(value, line, file.clone()));
    }
    if is_float_literal(t) {
        return Ok(Expr::floating(from_chars(t), line, file.clone()));
    }
    if n > 0 && t[0] == '"' && t[n - 1] == '"' {
        if n < 2 {
            return Err(ParseError::MalformedLiteral);
        }
        let text = slice(t, 1, n - 1);
        assert(text@ == inner(t@));
        return Ok(Expr::text(from_chars(&text), line, file.clone()));
    }
    if n > 0 && t[0] == '[' && t[n - 1] == ']' {
        let content = slice(t, 1, n - 1);
        let items = split_fields(&content, ',');
        proof {
            lemma_fields_len(content@, ',', 0);
        }
        return match list(&items, Ghost((n - 2) as nat), line, file) {
            Ok(elements) => Ok(Expr::array(elements, line, file.clone())),
            Err(e) => Err(e),
        };
    }
    match find(t, '(') {
        Some(i) => match find(t, ')') {
            Some(j) => {
                if i < j {
                    let content = slice(t, i + 1, j);
                    let items = split_fields(&content, ',');
                    proof {
                        lemma_fields_len(content@, ',', 0);
                    }
                    let name = slice(t, 0, i);
                    assert(name@ == t@.take(i as int));
                    match list(&items, Ghost((j - i - 1) as nat), line, file) {
                        Ok(args) => Ok(Expr::call(from_chars(&name), args, line, file.clone())),
                        Err(e) => Err(e),
                    }
                } else {
                    Err(ParseError::MissingDelimiter)
                }
            },
            None => Err(ParseError::MissingDelimiter),
        },
        None => Ok(Expr::variable(from_chars(t), line, file.clone())),
    }
}

/// The expressions that the items denote, each trimmed first.
fn list(items: &Vec<Vec<char>>, Ghost(bound): Ghost<nat>, line: usize, file: &String) -> (r:
    Result<Vec<Expr>, ParseError>)
    requires
        forall|k: int| 0 <= k < items.len() ==> (#[trigger] views(items@)[k]).len() <= bound,
    ensures
        list_result(r) == parse_list_spec(views(items@), bound, line as nat, file@),
    decreases bound, 3int, items@.len(),
{
    let ghost all = views(items@);
    let mut out: Vec<Expr> = Vec::new();
    let mut k: usize = 0;
    assert(all.take(0) == Seq::<Seq<char>>::empty());
    assert(exprs_model(out) == Seq::<ExprModel>::empty());
    while k < items.len()
        invariant
            k <= items.len(),
            all == views(items@),
            forall|i: int| 0 <= i < items.len() ==> (#[trigger] all[i]).len() <= bound,
            parse_list_spec(all.take(k as int), bound, line as nat, file@) == Ok::<
                Seq<ExprModel>,
                ParseError,
            >(exprs_model(out)),
        decreases items.len() - k,
    {
        let item = trim(&items[k]);
        proof {
            lemma_trimmed_len(items[k as int]@);
            assert(all[k as int] == items[k as int]@);
            assert(all.take(k + 1).drop_last() == all.take(k as int));
            assert(all.take(k + 1).last() == all[k as int]);
        }
        match expression(&item, line, file) {
            Ok(e) => {
                let ghost before = out;
                out.push(e);
                proof {
                    lemma_exprs_push(before, out, e);
                }
            },
            Err(e) => {
                proof {
                    lemma_list_prefix_error(all, k + 1, bound, line as nat, file@);
                }
                return Err(e);
            },
        }
        k += 1;
    }
    assert(all.take(k as int) == all);
    Ok(out)
}

/// The expression that the tokens from place `start` on denote: a term,
/// then operators and terms in turn, grouped from the left.
fn chain(
    toks: &Vec<Vec<char>>,
    start: usize,
    Ghost(bound): Ghost<nat>,
    line: usize,
    file: &String,
) -> (r: Result<Expr, ParseError>)
    requires
        start < toks.len(),
        forall|i: int| 0 <= i < toks.len() ==> (#[trigger] views(toks@)[i]).len() <= bound,
    ensures
        expr_result(r) == (match parse_term_spec(views(toks@)[start as int], line as nat, file@) {
            Err(e) => Err(e),
            Ok(first) => fold_ops(first, views(toks@), start + 1, bound, line as nat, file@),
        }),
    decreases bound, 1int, 0int,
{
    let ghost all = views(toks@);
    assert(all[start as int] == toks[start as int]@);
    let mut left = match term(&toks[start], line, file) {
        Ok(e) => e,
        Err(e) => {
            return Err(e);
        },
    };
    let ghost target = fold_ops(left@, all, start + 1, bound, line as nat, file@);
    let mut pos: usize = start + 1;
    while pos < toks.len()
        invariant
            start < pos,
            all == views(toks@),
            forall|i: int| 0 <= i < all.len() ==> (#[trigger] all[i]).len() <= bound,
            fold_ops(left@, all, pos as int, bound, line as nat, file@) == target,
            target == (match parse_term_spec(all[start as int], line as nat, file@) {
                Err(e) => Err(e),
                Ok(first) => fold_ops(first, all, start + 1, bound, line as nat, file@),
            }),
        decreases toks.len() - pos,
    {
        if pos + 1 >= toks.len() {
            return Err(ParseError::MissingTerm);
        }
        assert(all[pos + 1] == toks[pos + 1]@);
        assert(all[pos as int] == toks[pos as int]@);
        let right = match term(&toks[pos + 1], line, file) {
            Ok(e) => e,
            Err(e) => {
                return Err(e);
            },
        };
        let op = match operator(&toks[pos]) {
            Some(op) => op,
            None => {
                return Err(ParseError::InvalidOperator);
            },
        };
        left = Expr::binary(op, left, right, line, file.clone());
        pos += 2;
    }
    Ok(left)
}

/// The expression that `s` denotes.
fn expression(s: &Vec<char>, line: usize, file: &String) -> (r: Result<Expr, ParseError>)
    ensures
        expr_result(r) == parse_expr_spec(s@, line as nat, file@),
    decreases s@.len(), 2int, 0int,
{
    let toks = split_tokens(s);
    proof {
        lemma_tokens(s@, 0);
    }
    if toks.len() == 0 {
        return Err(ParseError::MissingTerm);
    }
    chain(&toks, 0, Ghost(s@.len()), line, file)
}

/// The model of a parsed line, or the error.
pub open spec fn statement_result(r: Result<Option<Statement>, ParseError>) -> Result<
    Option<StatementModel>,
    ParseError,
> {
    match r {
        Ok(Some(s)) => Ok(Some(s@)),
        Ok(None) => Ok(None),
        Err(x) => Err(x),
    }
}

/// The model of a parsed program, or the error.
pub open spec fn program_result(r: Result<Program, ParseError>) -> Result<
    Seq<StatementModel>,
    ParseError,
> {
    match r {
        Ok(p) => Ok(p@),
        Err(x) => Err(x),
    }
}

/// Whether `v` starts with `p`.
fn has_prefix(v: &Vec<char>, p: &Vec<char>) -> (b: bool)
    ensures
        b == p@.is_prefix_of(v@),
{
    if p.len() > v.len() {
        return false;
    }
    let mut i: usize = 0;
    while i < p.len()
        invariant
            i <= p.len() <= v.len(),
            forall|j: int| 0 <= j < i ==> p@[j] == v@[j],
        decreases p.len() - i,
    {
        if p[i] != v[i] {
            assert(v@.subrange(0, p@.len() as int)[i as int] != p@[i as int]);
            return false;
        }
        i += 1;
    }
    assert(p@ =~= v@.subrange(0, p@.len() as int));
    true
}

/// The parameter names between the parentheses of a function declaration.
fn parameters(content: &Vec<char>) -> (r: Vec<String>)
    ensures
        names_model(r) == trimmed_all(fields(content@, ',')),
{
    let items = split_fields(content, ',');
    let mut r: Vec<String> = Vec::new();
    let mut k: usize = 0;
    while k < items.len()
        invariant
            k <= items.len(),
            r.len() == k,
            views(items@) == fields(content@, ','),
            forall|i: int| 0 <= i < k ==> (#[trigger] r[i])@ == trimmed(items[i]@),
        decreases items.len() - k,
    {
        let name = trim(&items[k]);
        r.push(from_chars(&name));
        k += 1;
    }
    assert(names_model(r) =~= trimmed_all(views(items@)));
    r
}

/// The statement that the line `text` denotes, none for an empty line.
fn statement(text: &Vec<char>, line: usize, file: &String) -> (r: Result<
    Option<Statement>,
    ParseError,
>)
    ensures
        statement_result(r) == parse_statement_spec(text@, line as nat, file@),
{
    let word_l: Vec<char> = vec!['l', 'e', 't'];
    let word_f: Vec<char> = vec!['f', 'n'];
    let word_p: Vec<char> = vec!['p', 'r', 'i', 'n', 't', 'l', 'n', '!'];
    assert(word_l@ =~= word_let());
    assert(word_f@ =~= word_fn());
    assert(word_p@ =~= word_print());
    if has_prefix(text, &word_l) {
        let toks = split_tokens(text);
        if toks.len() < 4 {
            return Err(ParseError::MissingToken);
        }
        assert(views(toks@)[1] == toks[1]@);
        proof {
            lemma_tokens(text@, 0);
        }
        match chain(&toks, 3, Ghost(text@.len()), line, file) {
            Ok(e) => {
                let kind = StatementKind::VariableDeclaration(from_chars(&toks[1]), e);
                assert(statement_kind_model(kind) == StatementKindModel::VariableDeclaration(
                    toks[1]@,
                    e@,
                ));
                Ok(Some(Statement { kind, line, file: file.clone() }))
            },
            Err(e) => Err(e),
        }
    } else if has_prefix(text, &word_f) {
        let toks = split_tokens(text);
        if toks.len() < 2 {
            return Err(ParseError::MissingToken);
        }
        assert(views(toks@)[1] == toks[1]@);
        match (find(text, '('), find(text, ')')) {
            (Some(i), Some(j)) => {
                if i < j {
                    let content = slice(text, i + 1, j);
                    let params = parameters(&content);
                    let body: Vec<Statement> = Vec::new();
                    assert(statements_model(body) =~= Seq::<StatementModel>::empty());
                    let kind = StatementKind::FunctionDeclaration(
                        from_chars(&toks[1]),
                        params,
                        body,
                    );
                    assert(statement_kind_model(kind) == StatementKindModel::FunctionDeclaration(
                        toks[1]@,
                        names_model(params),
                        Seq::<StatementModel>::empty(),
                    ));
                    Ok(Some(Statement { kind, line, file: file.clone() }))
                } else {
                    Err(ParseError::MissingDelimiter)
                }
            },
            _ => Err(ParseError::MissingDelimiter),
        }
    } else if has_prefix(text, &word_p) {
        match (find(text, '('), rfind(text, ')')) {
            (Some(i), Some(j)) => {
                if i < j {
                    let content = slice(text, i + 1, j);
                    let items = split_fields(&content, ',');
                    proof {
                        lemma_fields_len(content@, ',', 0);
                    }
                    match list(&items, Ghost(text@.len()), line, file) {
                        Ok(args) => {
                            let ghost model = exprs_model(args);
                            let kind = StatementKind::PrintStatement(args);
                            assert(statement_kind_model(kind)
                                == StatementKindModel::PrintStatement(model));
                            Ok(Some(Statement { kind, line, file: file.clone() }))
                        },
                        Err(e) => Err(e),
                    }
                } else {
                    Err(ParseError::MissingDelimiter)
                }
            },
            _ => Err(ParseError::MissingDelimiter),
        }
    } else if text.len() > 0 {
        match expression(text, line, file) {
            Ok(e) => {
                let kind = StatementKind::ExpressionStatement(e);
                assert(statement_kind_model(kind) == StatementKindModel::ExpressionStatement(e@));
                Ok(Some(Statement { kind, line, file: file.clone() }))
            },
            Err(e) => Err(e),
        }
    } else {
        Ok(None)
    }
}

/// An error among the first lines is the error of the whole text.
proof fn lemma_lines_prefix_error(all: Seq<Seq<char>>, k: int, file: Seq<char>)
    requires
        0 <= k <= all.len(),
        parse_lines_spec(all.take(k), file) is Err,
    ensures
        parse_lines_spec(all, file) == parse_lines_spec(all.take(k), file),
    decreases all.len(),
{
    if k == all.len() {
        assert(all.take(k) == all);
    } else {
        assert(all.drop_last().take(k) == all.take(k));
        lemma_lines_prefix_error(all.drop_last(), k, file);
    }
}

/// What one more line adds to the statements read so far.
proof fn lemma_lines_step(all: Seq<Seq<char>>, k: int, file: Seq<char>)
    requires
        0 <= k < all.len(),
    ensures
        parse_lines_spec(all.take(k + 1), file) == match parse_lines_spec(all.take(k), file) {
            Err(e) => Err(e),
            Ok(front) => match parse_statement_spec(all[k], (k + 1) as nat, file) {
                Err(e) => Err(e),
                Ok(None) => Ok(front),
                Ok(Some(s)) => Ok(front.push(s)),
            },
        },
{
    assert(all.take(k + 1).drop_last() == all.take(k));
    assert(all.take(k + 1).last() == all[k]);
}

/// Parses a source text into a program: one statement at most for each
/// line, each carrying its line number, counted from one, and `file_name`.
/// Any line that is not a statement makes the whole text an error.
pub fn parse(source: &str, file_name: &str) -> (r: Result<Program, ParseError>)
    ensures
        program_result(r) == parse_spec(source@, file_name@),
{
    let file = file_name.to_owned();
    let chars = to_chars(source);
    let all = split_lines(&chars);
    let ghost texts = views(all@);
    let mut statements: Vec<Statement> = Vec::new();
    let mut k: usize = 0;
    assert(texts.take(0) == Seq::<Seq<char>>::empty());
    assert(statements_model(statements) == Seq::<StatementModel>::empty());
    while k < all.len()
        invariant
            k <= all.len(),
            texts == views(all@),
            texts == lines(source@),
            file@ == file_name@,
            parse_lines_spec(texts.take(k as int), file@) == Ok::<Seq<StatementModel>, ParseError>(
                statements_model(statements),
            ),
        decreases all.len() - k,
    {
        proof {
            assert(texts[k as int] == all[k as int]@);
            lemma_lines_step(texts, k as int, file@);
        }
        match statement(&all[k], k + 1, &file) {
            Ok(Some(s)) => {
                let ghost before = statements;
                statements.push(s);
                assert(statements_model(statements) =~= statements_model(before).push(s@));
            },
            Ok(None) => {},
            Err(e) => {
                proof {
                    lemma_lines_prefix_error(texts, k + 1, file@);
                }
                return Err(e);
            },
        }
        k += 1;
    }
    assert(texts.take(k as int) == texts);
    Ok(Program { statements })
}

/// Parses one line, numbered `line_number`, into a statement; an empty line
/// gives none.
pub fn parse_statement(line: &str, line_number: usize, file_name: &str) -> (r: Result<
    Option<Statement>,
    ParseError,
>)
    ensures
        statement_result(r) == parse_statement_spec(line@, line_number as nat, file_name@),
{
    let file = file_name.to_owned();
    statement(&to_chars(line), line_number, &file)
}

/// Parses an expression: terms joined by operators, grouped from the left.
pub fn parse_expr(expr: &str, line_number: usize, file_name: &str) -> (r: Result<
    Expr,
    ParseError,
>)
    ensures
        expr_result(r) == parse_expr_spec(expr@, line_number as nat, file_name@),
{
    parse_binary_op(expr, line_number, file_name)
}

/// Parses a chain of terms and operators, grouped from the left without
/// precedence.
pub fn parse_binary_op(expr: &str, line_number: usize, file_name: &str) -> (r: Result<
    Expr,
    ParseError,
>)
    ensures
        expr_result(r) == parse_expr_spec(expr@, line_number as nat, file_name@),
{
    let file = file_name.to_owned();
    expression(&to_chars(expr), line_number, &file)
}

/// Parses one token as a term.
pub fn parse_term(term: &str, line_number: usize, file_name: &str) -> (r: Result<
    Expr,
    ParseError,
>)
    ensures
        expr_result(r) == parse_term_spec(term@, line_number as nat, file_name@),
{
    let file = file_name.to_owned();
    self::term(&to_chars(term), line_number, &file)
}

} // verus!
