//! The grammar of the language, as functions from text to syntax-tree
//! models. The parser is proved against these.

use vstd::prelude::*;
use crate::ast::{
    node, statement_node, BinaryOp, ExprKindModel, ExprModel, LiteralModel, StatementKindModel,
    StatementModel,
};
use crate::number::{float_literal, int_literal};
use crate::scan::{fields, first_index, last_index, lines, tokens, trimmed};

verus! {

/// Why a source text is not a program.
#[derive(Debug, Clone, Copy, PartialEq, Eq, Structural)]
pub enum ParseError {
    /// A declaration lacks its name or its initializer.
    MissingToken,
    /// A parenthesis is missing, or the closing one comes first.
    MissingDelimiter,
    /// An expression has no term where one is due.
    MissingTerm,
    /// A token between two terms is none of `+`, `-`, `*`, `/`.
    InvalidOperator,
    /// A lone double quote.
    MalformedLiteral,
}

/// The operator that the token `t` spells.
pub open spec fn operator_of(t: Seq<char>) -> Option<BinaryOp> {
    if t == seq!['+'] {
        Some(BinaryOp::Add)
    } else if t == seq!['-'] {
        Some(BinaryOp::Sub)
    } else if t == seq!['*'] {
        Some(BinaryOp::Mul)
    } else if t == seq!['/'] {
        Some(BinaryOp::Div)
    } else {
        None
    }
}

/// Whether `t` starts with `open` and ends with `close`.
pub open spec fn enclosed(t: Seq<char>, open: char, close: char) -> bool {
    t.len() > 0 && t[0] == open && t.last() == close
}

/// `t` without its first and last character.
pub open spec fn inner(t: Seq<char>) -> Seq<char> {
    t.subrange(1, t.len() - 1)
}

/// The term that the token `t` denotes. Tried in this order: an integer, a
/// floating-point number, a quoted string, a bracketed array, a call, and
/// at last a variable.
pub open spec fn parse_term_spec(t: Seq<char>, line: nat, file: Seq<char>) -> Result<
    ExprModel,
    ParseError,
>
    decreases t.len(), 0int, 0int,
{
    if int_literal(t) is Some {
        Ok(node(ExprKindModel::Literal(LiteralModel::Int(int_literal(t)->0)), line, file))
    } else if float_literal(t) {
        Ok(node(ExprKindModel::Literal(LiteralModel::Float(t)), line, file))
    } else if enclosed(t, '"', '"') {
        if t.len() < 2 {
            Err(ParseError::MalformedLiteral)
        } else {
            Ok(node(ExprKindModel::Literal(LiteralModel::String(inner(t))), line, file))
        }
    } else if enclosed(t, '[', ']') && t.len() >= 2 {
        match parse_list_spec(fields(inner(t), ','), (t.len() - 2) as nat, line, file) {
            Ok(elements) => Ok(
                node(ExprKindModel::Literal(LiteralModel::Array(elements)), line, file),
            ),
            Err(e) => Err(e),
        }
    } else if first_index(t, '(') is Some {
        let i = first_index(t, '(')->0;
        match first_index(t, ')') {
            Some(j) if 0 <= i < j <= t.len() => match parse_list_spec(
                fields(t.subrange(i + 1, j), ','),
                (j - i - 1) as nat,
                line,
                file,
            ) {
                Ok(args) => Ok(node(ExprKindModel::FunctionCall(t.take(i), args), line, file)),
                Err(e) => Err(e),
            },
            _ => Err(ParseError::MissingDelimiter),
        }
    } else {
        Ok(node(ExprKindModel::Variable(t), line, file))
    }
}

/// Folds the tokens from `pos` on into `left`, an operator and a term at a
/// time, strictly from left to right. The term is read before the operator
/// is checked. No token is longer than `bound`.
pub open spec fn fold_ops(
    left: ExprModel,
    toks: Seq<Seq<char>>,
    pos: int,
    bound: nat,
    line: nat,
    file: Seq<char>,
) -> Result<ExprModel, ParseError>
    decreases bound, 1int, toks.len() - pos,
{
    if pos < 0 || pos >= toks.len() {
        Ok(left)
    } else if pos + 1 >= toks.len() {
        Err(ParseError::MissingTerm)
    } else if toks[pos + 1].len() > bound {
        arbitrary()
    } else {
        match parse_term_spec(toks[pos + 1], line, file) {
            Err(e) => Err(e),
            Ok(right) => match operator_of(toks[pos]) {
                None => Err(ParseError::InvalidOperator),
                Some(op) => fold_ops(
                    node(ExprKindModel::BinaryOp(op, Box::new(left), Box::new(right)), line, file),
                    toks,
                    pos + 2,
                    bound,
                    line,
                    file,
                ),
            },
        }
    }
}

/// The expression that `s` denotes: its tokens are a term, then operators
/// and terms in turn, grouped from the left without precedence.
pub open spec fn parse_expr_spec(s: Seq<char>, line: nat, file: Seq<char>) -> Result<
    ExprModel,
    ParseError,
>
    decreases s.len(), 2int, 0int,
{
    let toks = tokens(s);
    if toks.len() == 0 {
        Err(ParseError::MissingTerm)
    } else if toks[0].len() > s.len() {
        arbitrary()
    } else {
        match parse_term_spec(toks[0], line, file) {
            Err(e) => Err(e),
            Ok(first) => fold_ops(first, toks, 1, s.len(), line, file),
        }
    }
}

/// The expressions that the items denote, each trimmed first; the error of
/// the first item that has one. No item is longer than `bound`.
pub open spec fn parse_list_spec(
    items: Seq<Seq<char>>,
    bound: nat,
    line: nat,
    file: Seq<char>,
) -> Result<Seq<ExprModel>, ParseError>
    decreases bound, 3int, items.len(),
{
    if items.len() == 0 {
        Ok(Seq::empty())
    } else {
        match parse_list_spec(items.drop_last(), bound, line, file) {
            Err(e) => Err(e),
            Ok(front) => if trimmed(items.last()).len() > bound {
                arbitrary()
            } else {
                match parse_expr_spec(trimmed(items.last()), line, file) {
                    Err(e) => Err(e),
                    Ok(x) => Ok(front.push(x)),
                }
            },
        }
    }
}

/// The word that opens a variable declaration.
pub open spec fn word_let() -> Seq<char> {
    seq!['l', 'e', 't']
}

/// The word that opens a function declaration.
pub open spec fn word_fn() -> Seq<char> {
    seq!['f', 'n']
}

/// The word that opens a print statement.
pub open spec fn word_print() -> Seq<char> {
    seq!['p', 'r', 'i', 'n', 't', 'l', 'n', '!']
}

/// Each item without its leading and trailing white space.
pub open spec fn trimmed_all(items: Seq<Seq<char>>) -> Seq<Seq<char>> {
    Seq::new(items.len(), |i: int| trimmed(items[i]))
}

/// The statement that one line denotes, none for an empty line. The line's
/// first characters decide: `let`, `fn`, `println!`, or else an expression.
///
/// A declaration `let <name> = <expr>` takes its name from the second token
/// and its initializer from the tokens from the fourth on, which are read
/// as an expression; the third token is not looked at. A function takes
/// its name from the second token and its parameters from between the
/// first `(` and the first `)`; its body is always empty. A print statement
/// takes its arguments from between the first `(` and the last `)`.
pub open spec fn parse_statement_spec(text: Seq<char>, line: nat, file: Seq<char>) -> Result<
    Option<StatementModel>,
    ParseError,
> {
    let toks = tokens(text);
    if word_let().is_prefix_of(text) {
        if toks.len() < 4 {
            Err(ParseError::MissingToken)
        } else {
            match parse_term_spec(toks[3], line, file) {
                Err(e) => Err(e),
                Ok(first) => match fold_ops(first, toks, 4, text.len(), line, file) {
                    Err(e) => Err(e),
                    Ok(e) => Ok(
                        Some(
                            statement_node(
                                StatementKindModel::VariableDeclaration(toks[1], e),
                                line,
                                file,
                            ),
                        ),
                    ),
                },
            }
        }
    } else if word_fn().is_prefix_of(text) {
        if toks.len() < 2 {
            Err(ParseError::MissingToken)
        } else {
            match (first_index(text, '('), first_index(text, ')')) {
                (Some(i), Some(j)) if i < j => Ok(
                    Some(
                        statement_node(
                            StatementKindModel::FunctionDeclaration(
                                toks[1],
                                trimmed_all(fields(text.subrange(i + 1, j), ',')),
                                Seq::empty(),
                            ),
                            line,
                            file,
                        ),
                    ),
                ),
                _ => Err(ParseError::MissingDelimiter),
            }
        }
    } else if word_print().is_prefix_of(text) {
        match (first_index(text, '('), last_index(text, ')')) {
            (Some(i), Some(j)) if i < j => match parse_list_spec(
                fields(text.subrange(i + 1, j), ','),
                text.len(),
                line,
                file,
            ) {
                Err(e) => Err(e),
                Ok(args) => Ok(
                    Some(statement_node(StatementKindModel::PrintStatement(args), line, file)),
                ),
            },
            _ => Err(ParseError::MissingDelimiter),
        }
    } else if text.len() > 0 {
        match parse_expr_spec(text, line, file) {
            Err(e) => Err(e),
            Ok(e) => Ok(
                Some(statement_node(StatementKindModel::ExpressionStatement(e), line, file)),
            ),
        }
    } else {
        Ok(None)
    }
}

/// The statements that the given lines denote, numbered from one; the error
/// of the first line that has one.
pub open spec fn parse_lines_spec(all: Seq<Seq<char>>, file: Seq<char>) -> Result<
    Seq<StatementModel>,
    ParseError,
>
    decreases all.len(),
{
    if all.len() == 0 {
        Ok(Seq::empty())
    } else {
        match parse_lines_spec(all.drop_last(), file) {
            Err(e) => Err(e),
            Ok(front) => match parse_statement_spec(all.last(), all.len(), file) {
                Err(e) => Err(e),
                Ok(None) => Ok(front),
                Ok(Some(s)) => Ok(front.push(s)),
            },
        }
    }
}

/// The program that the source text denotes: one statement at most for each
/// of its lines.
pub open spec fn parse_spec(source: Seq<char>, file: Seq<char>) -> Result<
    Seq<StatementModel>,
    ParseError,
> {
    parse_lines_spec(lines(source), file)
}

} // verus!
