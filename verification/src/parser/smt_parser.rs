//! The parser: reads a text as the grammar says.

use super::expression::{lemma_view_all, Expression, ExpressionView};
use super::grammar;
use super::grammar::Outcome;
use super::lexical::{
    closing, identifier, literal, opening, raw_boolean, raw_integer, skip_whitespace, sort_name,
    string_literal, Parsed,
};
use super::token::{
    lemma_join_associative, lemma_join_none, ExpectedSet, Failure, FailureRecord, Token,
};
use super::{Function, Model, Parameter};
use crate::text::characters;
use vstd::prelude::*;

verus! {

/// Why a text is no model: the farthest position at which the parser asked
/// for a token in vain, counted in characters from the start, and the tokens
/// it asked for there.
#[derive(Debug, Clone, Copy, PartialEq, Eq)]
pub struct ParseError {
    pub position: usize,
    pub expected: ExpectedSet,
}

impl View for ParseError {
    type V = FailureRecord;

    open spec fn view(&self) -> FailureRecord {
        FailureRecord { position: self.position as int, expected: self.expected@ }
    }
}

/// How many line feeds stand before a position of a text; before its end
/// where the position lies behind it.
pub open spec fn line_feeds_before(s: Seq<char>, p: int) -> nat
    decreases p,
{
    if p <= 0 {
        0
    } else if p > s.len() {
        line_feeds_before(s, s.len() as int)
    } else if s[p - 1] == '\n' {
        1 + line_feeds_before(s, p - 1)
    } else {
        line_feeds_before(s, p - 1)
    }
}

/// Where the line of a position starts: behind the last line feed before
/// the position, or at the start of the text.
pub open spec fn line_start(s: Seq<char>, p: int) -> int
    decreases p,
{
    if p <= 0 {
        0
    } else if p > s.len() {
        line_start(s, s.len() as int)
    } else if s[p - 1] == '\n' {
        p
    } else {
        line_start(s, p - 1)
    }
}

/// How many characters stand between the start of its line and a position.
pub open spec fn column_of(s: Seq<char>, p: int) -> int {
    if p > s.len() {
        s.len() - line_start(s, p)
    } else if p < 0 {
        0
    } else {
        p - line_start(s, p)
    }
}

/// The line and the column of a position of a text, both counted from
/// zero: the line feeds before the position, and the characters between the
/// start of its line and the position.
pub fn locate(text: &str, position: usize) -> (place: (usize, usize))
    ensures
        place.0 == line_feeds_before(text@, position as int),
        place.1 == column_of(text@, position as int),
{
    let input = characters(text);
    let end = if position > input.len() {
        input.len()
    } else {
        position
    };
    let mut lines: usize = 0;
    let mut start: usize = 0;
    let mut i: usize = 0;
    while i < end
        invariant
            i <= end <= input.len(),
            lines <= i,
            start <= i,
            lines == line_feeds_before(input@, i as int),
            start == line_start(input@, i as int),
        decreases end - i,
    {
        if input[i] == '\n' {
            lines += 1;
            start = i + 1;
        }
        i += 1;
    }
    (lines, end - start)
}

/// A row that continues another: the items read so far, what was missed so
/// far, and the rest of the row.
pub open spec fn continued<T>(items: Seq<T>, missed: FailureRecord, rest: Outcome<Seq<T>>) -> Outcome<
    Seq<T>,
> {
    Outcome {
        result: Some((items + rest.value(), rest.next())),
        failure: missed.join(rest.failure),
    }
}

/// The limit of a row, as the grammar counts it.
pub open spec fn limit_of(limit: Option<usize>, taken: nat) -> Option<nat> {
    match limit {
        Some(n) => Some((n - taken) as nat),
        None => None,
    }
}

fn integer(input: &Vec<char>, pos: usize) -> (r: Parsed<Expression>)
    requires
        pos <= input.len(),
    ensures
        r.outcome() == grammar::integer(input@, pos as int),
        r.result matches Some((_, next)) ==> pos < next <= input.len(),
{
    let number = raw_integer(input, pos);
    Parsed {
        result: match number.result {
            Some((value, next)) => Some((Expression::Integer(value), next)),
            None => None,
        },
        failure: number.failure,
    }
}

fn boolean(input: &Vec<char>, pos: usize) -> (r: Parsed<Expression>)
    requires
        pos <= input.len(),
    ensures
        r.outcome() == grammar::boolean(input@, pos as int),
        r.result matches Some((_, next)) ==> pos < next <= input.len(),
{
    let truth = raw_boolean(input, pos);
    Parsed {
        result: match truth.result {
            Some((value, next)) => Some((Expression::Boolean(value), next)),
            None => None,
        },
        failure: truth.failure,
    }
}

fn string(input: &Vec<char>, pos: usize) -> (r: Parsed<Expression>)
    requires
        pos <= input.len(),
    ensures
        r.outcome() == grammar::string(input@, pos as int),
        r.result matches Some((_, next)) ==> pos < next <= input.len(),
{
    let text = string_literal(input, pos);
    Parsed {
        result: match text.result {
            Some((value, next)) => Some((Expression::String(value), next)),
            None => None,
        },
        failure: text.failure,
    }
}

fn identifier_expression(input: &Vec<char>, pos: usize) -> (r: Parsed<Expression>)
    requires
        pos <= input.len(),
    ensures
        r.outcome() == grammar::identifier_expression(input@, pos as int),
        r.result matches Some((_, next)) ==> pos < next <= input.len(),
{
    let name = identifier(input, pos);
    Parsed {
        result: match name.result {
            Some((value, next)) => Some((Expression::Identifier(value), next)),
            None => None,
        },
        failure: name.failure,
    }
}

/// Reads an expression.
#[verifier::rlimit(40)]
pub fn expression(input: &Vec<char>, pos: usize) -> (r: Parsed<Expression>)
    requires
        pos <= input.len(),
    ensures
        r.outcome() == grammar::expression(input@, pos as int),
        r.result matches Some((_, next)) ==> pos < next <= input.len(),
    decreases grammar::remaining(input@, pos as int), 2int,
{
    let a1 = integer(input, pos);
    if a1.result.is_some() {
        return a1;
    }
    let a2 = boolean(input, pos).noting(a1.failure);
    if a2.result.is_some() {
        return a2;
    }
    let a3 = string(input, pos).noting(a2.failure);
    if a3.result.is_some() {
        return a3;
    }
    let a4 = equality(input, pos).noting(a3.failure);
    if a4.result.is_some() {
        return a4;
    }
    let a5 = conjunction(input, pos).noting(a4.failure);
    if a5.result.is_some() {
        return a5;
    }
    let a6 = conditional(input, pos).noting(a5.failure);
    if a6.result.is_some() {
        return a6;
    }
    let a7 = cast(input, pos).noting(a6.failure);
    if a7.result.is_some() {
        return a7;
    }
    let a8 = parentheses(input, pos).noting(a7.failure);
    if a8.result.is_some() {
        return a8;
    }
    let a9 = identifier_expression(input, pos).noting(a8.failure);
    if a9.result.is_some() {
        return a9;
    }
    function_call(input, pos).noting(a9.failure)
}

/// Reads expressions in a row, up to a limit if there is one.
fn expressions(input: &Vec<char>, pos: usize, limit: Option<usize>) -> (r: Parsed<Vec<Expression>>)
    requires
        pos <= input.len(),
    ensures
        r.outcome() == grammar::expressions(input@, pos as int, limit_of(limit, 0)),
        r.result matches Some((items, next)) && pos <= next <= input.len(),
    decreases grammar::remaining(input@, pos as int), 3int,
{
    let mut items: Vec<Expression> = Vec::new();
    let mut missed = Failure::none();
    let mut at = pos;
    loop
        invariant
            pos <= at <= input.len(),
            limit matches Some(n) ==> items.len() <= n,
            items.len() == 0 ==> at == pos,
            items.len() > 0 ==> grammar::expressions(input@, pos as int, limit_of(limit, 0))
                == continued(
                items.deep_view(),
                missed@,
                grammar::expressions(input@, at as int, limit_of(limit, items.len() as nat)),
            ),
        decreases grammar::remaining(input@, at as int),
    {
        let full = match limit {
            Some(n) => items.len() >= n,
            None => false,
        };
        if full {
            proof {
                lemma_join_none(missed@);
                assert(items.deep_view() + Seq::<ExpressionView>::empty() =~= items.deep_view());
                if items.len() == 0 {
                    assert(items.deep_view() =~= Seq::<ExpressionView>::empty());
                }
            }
            let failure = if items.len() == 0 {
                Failure::none()
            } else {
                missed
            };
            return Parsed { result: Some((items, at)), failure };
        }
        let first = expression(input, at);
        match first.result {
            None => {
                proof {
                    assert(items.deep_view() + Seq::<ExpressionView>::empty()
                        =~= items.deep_view());
                }
                let failure = if items.len() == 0 {
                    first.failure
                } else {
                    missed.join(first.failure)
                };
                return Parsed { result: Some((items, at)), failure };
            },
            Some((value, next)) => {
                let ghost before = items.deep_view();
                let ghost earlier = missed@;
                let ghost here = grammar::expressions(
                    input@,
                    at as int,
                    limit_of(limit, items.len() as nat),
                );
                let behind = skip_whitespace(input, next);
                let ghost rest = grammar::expressions(
                    input@,
                    behind as int,
                    limit_of(limit, (items.len() + 1) as nat),
                );
                missed = if items.len() == 0 {
                    first.failure
                } else {
                    missed.join(first.failure)
                };
                items.push(value);
                proof {
                    assert(items.deep_view() =~= before.push(value.deep_view()));
                    assert(here.result == Some(
                        (seq![value.deep_view()] + rest.value(), rest.next()),
                    ));
                    assert(before + (seq![value.deep_view()] + rest.value()) =~= before.push(
                        value.deep_view(),
                    ) + rest.value());
                    lemma_join_associative(earlier, first.failure@, rest.failure);
                }
                at = behind;
            },
        }
    }
}

/// Reads a head literal in brackets with one or more operands.
fn operator_form(input: &Vec<char>, pos: usize, head: Token) -> (r: Parsed<Vec<Expression>>)
    requires
        pos <= input.len(),
    ensures
        r.outcome() == grammar::operator_form(input@, pos as int, head),
        r.result matches Some((_, next)) ==> pos < next <= input.len(),
    decreases grammar::remaining(input@, pos as int), 0int,
{
    let start = opening(input, pos, head);
    match start.result {
        None => Parsed::failed(start.failure),
        Some((_, from)) => {
            let operands = expressions(input, from, None);
            match operands.result {
                None => Parsed::failed(operands.failure),
                Some((items, behind)) => {
                    if items.len() == 0 {
                        return Parsed::failed(operands.failure);
                    }
                    let end = closing(input, behind).noting(operands.failure);
                    match end.result {
                        None => Parsed::failed(end.failure),
                        Some((_, next)) => Parsed {
                            result: Some((items, next)),
                            failure: end.failure,
                        },
                    }
                },
            }
        },
    }
}

fn equality(input: &Vec<char>, pos: usize) -> (r: Parsed<Expression>)
    requires
        pos <= input.len(),
    ensures
        r.outcome() == grammar::equality(input@, pos as int),
        r.result matches Some((_, next)) ==> pos < next <= input.len(),
    decreases grammar::remaining(input@, pos as int), 1int,
{
    let form = operator_form(input, pos, Token::Equals);
    match form.result {
        None => Parsed::failed(form.failure),
        Some((operands, next)) => {
            proof {
                lemma_view_all(operands);
            }
            Parsed { result: Some((Expression::Eq(operands), next)), failure: form.failure }
        },
    }
}

fn conjunction(input: &Vec<char>, pos: usize) -> (r: Parsed<Expression>)
    requires
        pos <= input.len(),
    ensures
        r.outcome() == grammar::conjunction(input@, pos as int),
        r.result matches Some((_, next)) ==> pos < next <= input.len(),
    decreases grammar::remaining(input@, pos as int), 1int,
{
    let form = operator_form(input, pos, Token::And);
    match form.result {
        None => Parsed::failed(form.failure),
        Some((operands, next)) => {
            proof {
                lemma_view_all(operands);
            }
            Parsed { result: Some((Expression::And(operands), next)), failure: form.failure }
        },
    }
}

fn conditional(input: &Vec<char>, pos: usize) -> (r: Parsed<Expression>)
    requires
        pos <= input.len(),
    ensures
        r.outcome() == grammar::conditional(input@, pos as int),
        r.result matches Some((_, next)) ==> pos < next <= input.len(),
    decreases grammar::remaining(input@, pos as int), 1int,
{
    let start = opening(input, pos, Token::Ite);
    match start.result {
        None => Parsed::failed(start.failure),
        Some((_, from)) => {
            let parts = expressions(input, from, Some(3));
            match parts.result {
                None => Parsed::failed(parts.failure),
                Some((items, behind)) => {
                    if items.len() != 3 {
                        return Parsed::failed(parts.failure);
                    }
                    let end = closing(input, behind).noting(parts.failure);
                    match end.result {
                        None => Parsed::failed(end.failure),
                        Some((_, next)) => {
                            let ghost values = items.deep_view();
                            let mut items = items;
                            let else_branch = items.pop().unwrap();
                            let then_branch = items.pop().unwrap();
                            let condition = items.pop().unwrap();
                            proof {
                                assert(values[0] == condition.deep_view());
                                assert(values[1] == then_branch.deep_view());
                                assert(values[2] == else_branch.deep_view());
                            }
                            Parsed {
                                result: Some(
                                    (
                                        Expression::Ite(
                                            Box::new(condition),
                                            Box::new(then_branch),
                                            Box::new(else_branch),
                                        ),
                                        next,
                                    ),
                                ),
                                failure: end.failure,
                            }
                        },
                    }
                },
            }
        },
    }
}

fn cast(input: &Vec<char>, pos: usize) -> (r: Parsed<Expression>)
    requires
        pos <= input.len(),
    ensures
        r.outcome() == grammar::cast(input@, pos as int),
        r.result matches Some((_, next)) ==> pos < next <= input.len(),
{
    reveal(grammar::cast);
    let start = opening(input, pos, Token::Underscore);
    match start.result {
        None => Parsed::failed(start.failure),
        Some((_, from)) => {
            let target = sort_name(input, from);
            match target.result {
                None => Parsed::failed(target.failure),
                Some((sort, behind)) => {
                    let raw = raw_integer(input, skip_whitespace(input, behind)).noting(
                        target.failure,
                    );
                    match raw.result {
                        None => Parsed::failed(raw.failure),
                        Some((value, last)) => {
                            let end = closing(input, last).noting(raw.failure);
                            match end.result {
                                None => Parsed::failed(end.failure),
                                Some((_, next)) => Parsed {
                                    result: Some((Expression::Cast(sort, value), next)),
                                    failure: end.failure,
                                },
                            }
                        },
                    }
                },
            }
        },
    }
}

fn parentheses(input: &Vec<char>, pos: usize) -> (r: Parsed<Expression>)
    requires
        pos <= input.len(),
    ensures
        r.outcome() == grammar::parentheses(input@, pos as int),
        r.result matches Some((_, next)) ==> pos < next <= input.len(),
    decreases grammar::remaining(input@, pos as int), 1int,
{
    let open = literal(input, pos, Token::OpenParen);
    match open.result {
        None => Parsed::failed(open.failure),
        Some((_, from)) => {
            let inner = expression(input, skip_whitespace(input, from));
            match inner.result {
                None => Parsed::failed(inner.failure),
                Some((value, behind)) => {
                    let end = closing(input, behind).noting(inner.failure);
                    match end.result {
                        None => Parsed::failed(end.failure),
                        Some((_, next)) => Parsed {
                            result: Some((Expression::Parentheses(Box::new(value)), next)),
                            failure: end.failure,
                        },
                    }
                },
            }
        },
    }
}

fn function_call(input: &Vec<char>, pos: usize) -> (r: Parsed<Expression>)
    requires
        pos <= input.len(),
    ensures
        r.outcome() == grammar::function_call(input@, pos as int),
        r.result matches Some((_, next)) ==> pos < next <= input.len(),
    decreases grammar::remaining(input@, pos as int), 1int,
{
    let open = literal(input, pos, Token::OpenParen);
    match open.result {
        None => Parsed::failed(open.failure),
        Some((_, from)) => {
            let name = identifier(input, skip_whitespace(input, from));
            match name.result {
                None => Parsed::failed(name.failure),
                Some((called, behind)) => {
                    let arguments = expressions(input, skip_whitespace(input, behind), None);
                    match arguments.result {
                        None => Parsed::failed(arguments.failure),
                        Some((items, last)) => {
                            if items.len() == 0 {
                                return Parsed::failed(arguments.failure);
                            }
                            let end = closing(input, last).noting(arguments.failure);
                            match end.result {
                                None => Parsed::failed(end.failure),
                                Some((_, next)) => {
                                    proof {
                                        lemma_view_all(items);
                                    }
                                    Parsed {
                                        result: Some(
                                            (Expression::FunctionCall(called, items), next),
                                        ),
                                        failure: end.failure,
                                    }
                                },
                            }
                        },
                    }
                },
            }
        },
    }
}

fn parameter(input: &Vec<char>, pos: usize) -> (r: Parsed<Parameter>)
    requires
        pos <= input.len(),
    ensures
        r.outcome() == grammar::parameter(input@, pos as int),
        r.result matches Some((_, next)) ==> pos < next <= input.len(),
{
    let open = literal(input, pos, Token::OpenParen);
    match open.result {
        None => Parsed::failed(open.failure),
        Some((_, from)) => {
            let name = identifier(input, skip_whitespace(input, from));
            match name.result {
                None => Parsed::failed(name.failure),
                Some((called, behind)) => {
                    let sort = sort_name(input, skip_whitespace(input, behind));
                    match sort.result {
                        None => Parsed::failed(sort.failure),
                        Some((target, last)) => {
                            let end = closing(input, last).noting(sort.failure);
                            match end.result {
                                None => Parsed::failed(end.failure),
                                Some((_, next)) => Parsed {
                                    result: Some(((called, target), next)),
                                    failure: end.failure,
                                },
                            }
                        },
                    }
                },
            }
        },
    }
}

fn parameters(input: &Vec<char>, pos: usize) -> (r: Parsed<Vec<Parameter>>)
    requires
        pos <= input.len(),
    ensures
        r.outcome() == grammar::parameters(input@, pos as int),
        r.result matches Some((items, next)) && pos <= next <= input.len(),
{
    let mut items: Vec<Parameter> = Vec::new();
    let mut missed = Failure::none();
    let mut at = pos;
    loop
        invariant
            pos <= at <= input.len(),
            items.len() == 0 ==> at == pos,
            items.len() > 0 ==> grammar::parameters(input@, pos as int) == continued(
                items.deep_view(),
                missed@,
                grammar::parameters(input@, at as int),
            ),
        decreases grammar::remaining(input@, at as int),
    {
        let first = parameter(input, at);
        match first.result {
            None => {
                proof {
                    assert(items.deep_view() + Seq::empty() =~= items.deep_view());
                }
                let failure = if items.len() == 0 {
                    first.failure
                } else {
                    missed.join(first.failure)
                };
                return Parsed { result: Some((items, at)), failure };
            },
            Some((value, next)) => {
                let ghost before = items.deep_view();
                let ghost earlier = missed@;
                let ghost here = grammar::parameters(input@, at as int);
                let behind = skip_whitespace(input, next);
                let ghost rest = grammar::parameters(input@, behind as int);
                missed = if items.len() == 0 {
                    first.failure
                } else {
                    missed.join(first.failure)
                };
                items.push(value);
                proof {
                    assert(items.deep_view() =~= before.push(value.deep_view()));
                    assert(here.result == Some(
                        (seq![value.deep_view()] + rest.value(), rest.next()),
                    ));
                    assert(before + (seq![value.deep_view()] + rest.value()) =~= before.push(
                        value.deep_view(),
                    ) + rest.value());
                    lemma_join_associative(earlier, first.failure@, rest.failure);
                }
                at = behind;
            },
        }
    }
}

fn function_head(input: &Vec<char>, pos: usize) -> (r: Parsed<(String, Vec<Parameter>)>)
    requires
        pos <= input.len(),
    ensures
        r.outcome() == grammar::function_head(input@, pos as int),
        r.result matches Some((_, next)) ==> pos < next <= input.len(),
{
    reveal(grammar::function_head);
    let start = opening(input, pos, Token::DefineFun);
    let from = match start.result {
        None => {
            return Parsed::failed(start.failure);
        },
        Some((_, from)) => from,
    };
    let named = identifier(input, from);
    let (name, behind_name) = match named.result {
        None => {
            return Parsed::failed(named.failure);
        },
        Some(found) => found,
    };
    let open = literal(input, skip_whitespace(input, behind_name), Token::OpenParen);
    let behind_open = match open.result {
        None => {
            return Parsed::failed(open.failure);
        },
        Some((_, behind)) => behind,
    };
    let listed = parameters(input, skip_whitespace(input, behind_open));
    let (params, behind_params) = match listed.result {
        None => {
            return Parsed::failed(listed.failure);
        },
        Some(found) => found,
    };
    let close = closing(input, behind_params).noting(listed.failure);
    match close.result {
        None => Parsed::failed(close.failure),
        Some((_, next)) => Parsed { result: Some(((name, params), next)), failure: close.failure },
    }
}

fn function(input: &Vec<char>, pos: usize) -> (r: Parsed<Function>)
    requires
        pos <= input.len(),
    ensures
        r.outcome() == grammar::function(input@, pos as int),
        r.result matches Some((_, next)) ==> pos < next <= input.len(),
{
    let head = function_head(input, pos);
    let ((name, params), behind_head) = match head.result {
        None => {
            return Parsed::failed(head.failure);
        },
        Some(found) => found,
    };
    let sort = sort_name(input, skip_whitespace(input, behind_head)).noting(head.failure);
    let (return_type, behind_sort) = match sort.result {
        None => {
            return Parsed::failed(sort.failure);
        },
        Some(found) => found,
    };
    let read = expression(input, skip_whitespace(input, behind_sort)).noting(sort.failure);
    let (body, behind_body) = match read.result {
        None => {
            return Parsed::failed(read.failure);
        },
        Some(found) => found,
    };
    let end = closing(input, behind_body).noting(read.failure);
    match end.result {
        None => Parsed::failed(end.failure),
        Some((_, next)) => Parsed {
            result: Some((Function { name, params, return_type, body: Box::new(body) }, next)),
            failure: end.failure,
        },
    }
}

fn functions(input: &Vec<char>, pos: usize) -> (r: Parsed<Vec<Function>>)
    requires
        pos <= input.len(),
    ensures
        r.outcome() == grammar::functions(input@, pos as int),
        r.result matches Some((items, next)) && pos <= next <= input.len(),
{
    let mut items: Vec<Function> = Vec::new();
    let mut missed = Failure::none();
    let mut at = pos;
    loop
        invariant
            pos <= at <= input.len(),
            items.len() == 0 ==> at == pos,
            items.len() > 0 ==> grammar::functions(input@, pos as int) == continued(
                items.deep_view(),
                missed@,
                grammar::functions(input@, at as int),
            ),
        decreases grammar::remaining(input@, at as int),
    {
        let first = function(input, at);
        match first.result {
            None => {
                proof {
                    assert(items.deep_view() + Seq::empty() =~= items.deep_view());
                }
                let failure = if items.len() == 0 {
                    first.failure
                } else {
                    missed.join(first.failure)
                };
                return Parsed { result: Some((items, at)), failure };
            },
            Some((value, next)) => {
                let ghost before = items.deep_view();
                let ghost earlier = missed@;
                let ghost here = grammar::functions(input@, at as int);
                let behind = skip_whitespace(input, next);
                let ghost rest = grammar::functions(input@, behind as int);
                missed = if items.len() == 0 {
                    first.failure
                } else {
                    missed.join(first.failure)
                };
                items.push(value);
                proof {
                    assert(items.deep_view() =~= before.push(value.deep_view()));
                    assert(here.result == Some(
                        (seq![value.deep_view()] + rest.value(), rest.next()),
                    ));
                    assert(before + (seq![value.deep_view()] + rest.value()) =~= before.push(
                        value.deep_view(),
                    ) + rest.value());
                    lemma_join_associative(earlier, first.failure@, rest.failure);
                }
                at = behind;
            },
        }
    }
}

fn whole_model(input: &Vec<char>, pos: usize) -> (r: Parsed<Vec<Function>>)
    requires
        pos <= input.len(),
    ensures
        r.outcome() == grammar::model(input@, pos as int),
        r.result matches Some((_, next)) ==> pos < next <= input.len(),
{
    let verdict = literal(input, pos, Token::Sat);
    match verdict.result {
        None => Parsed::failed(verdict.failure),
        Some((_, from)) => {
            let open = literal(input, skip_whitespace(input, from), Token::OpenParen);
            match open.result {
                None => Parsed::failed(open.failure),
                Some((_, behind)) => {
                    let list = functions(input, skip_whitespace(input, behind));
                    match list.result {
                        None => Parsed::failed(list.failure),
                        Some((items, last)) => {
                            let end = closing(input, last).noting(list.failure);
                            match end.result {
                                None => Parsed::failed(end.failure),
                                Some((_, next)) => Parsed {
                                    result: Some((items, skip_whitespace(input, next))),
                                    failure: end.failure,
                                },
                            }
                        },
                    }
                },
            }
        },
    }
}

/// Reads a text as a model.
///
/// The text is a model where it is `sat`, then the functions in one pair of
/// brackets, with nothing before and only whitespace behind. The functions
/// come in the order of the text. Any other text is refused, with the
/// farthest position at which the grammar asked for a token that was not
/// there and the tokens it asked for at that position.
pub fn model(input: &str) -> (r: Result<Model, ParseError>)
    ensures
        match grammar::parse(input@) {
            Ok(functions) => r matches Ok(model) && model.deep_view() == functions,
            Err(failure) => r matches Err(error) && error@ == failure,
        },
{
    let text = characters(input);
    let whole = whole_model(&text, 0);
    match whole.result {
        None => Err(
            ParseError { position: whole.failure.position, expected: whole.failure.expected },
        ),
        Some((functions, next)) => {
            if next < text.len() {
                let failure = whole.failure.join(Failure::at(next, Token::EndOfInput));
                Err(ParseError { position: failure.position, expected: failure.expected })
            } else {
                Ok(functions)
            }
        },
    }
}

} // verus!
