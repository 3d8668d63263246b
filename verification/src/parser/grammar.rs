//! The grammar of a solver model, stated over sequences of characters.
//!
//! Every rule is a function from a text and a position to an [`Outcome`]:
//! the value the rule reads there and the position behind it, or nothing.
//! Alternatives are tried in the order written and the first that matches
//! is taken. Beside its result each rule reports the farthest position at
//! which it asked for a token in vain; rules that are quiet report none.

use super::expression::ExpressionView;
use super::smt_type::SmtType;
use super::FunctionView;
use super::token::{FailureRecord, Token};
use vstd::prelude::*;

verus! {

/// What a rule made of a text at a position.
pub ghost struct Outcome<T> {
    /// The value read and the position behind it, where the rule matched.
    pub result: Option<(T, int)>,
    /// What the rule missed on the way, whether it matched or not.
    pub failure: FailureRecord,
}

impl<T> Outcome<T> {
    /// A match that missed nothing on the way.
    pub open spec fn matched(value: T, next: int) -> Outcome<T> {
        Outcome { result: Some((value, next)), failure: FailureRecord::none() }
    }

    /// No match.
    pub open spec fn failed(failure: FailureRecord) -> Outcome<T> {
        Outcome { result: None, failure }
    }

    pub open spec fn is_match(self) -> bool {
        self.result is Some
    }

    pub open spec fn value(self) -> T {
        self.result.unwrap().0
    }

    pub open spec fn next(self) -> int {
        self.result.unwrap().1
    }

    /// The same result, with what was missed before it added to its record.
    pub open spec fn noting(self, earlier: FailureRecord) -> Outcome<T> {
        Outcome { result: self.result, failure: earlier.join(self.failure) }
    }
}

/// A class of characters that a rule reads a run of.
#[derive(Debug, Clone, Copy, PartialEq, Eq, Structural)]
pub enum CharClass {
    Whitespace,
    Digit,
    IdentifierPart,
    NotQuote,
}

pub open spec fn is_letter(c: char) -> bool {
    ('a' <= c && c <= 'z') || ('A' <= c && c <= 'Z')
}

pub open spec fn is_digit(c: char) -> bool {
    '0' <= c && c <= '9'
}

impl CharClass {
    /// Whether a character is of the class.
    pub open spec fn holds(self, c: char) -> bool {
        match self {
            CharClass::Whitespace => c == ' ' || c == '\t' || c == '\r' || c == '\n',
            CharClass::Digit => is_digit(c),
            CharClass::IdentifierPart => is_letter(c) || is_digit(c) || c == '_' || c == '!' || c
                == '.',
            CharClass::NotQuote => c != '"',
        }
    }
}

/// How much of the text lies behind a position.
pub open spec fn remaining(s: Seq<char>, p: int) -> nat {
    if p <= s.len() {
        (s.len() - p) as nat
    } else {
        0
    }
}

/// How many characters of a class stand in a row from a position on.
pub open spec fn run(s: Seq<char>, p: int, class: CharClass) -> nat
    decreases s.len() - p,
{
    if 0 <= p < s.len() && class.holds(s[p]) {
        1 + run(s, p + 1, class)
    } else {
        0
    }
}

/// The position behind the whitespace that starts at a position.
pub open spec fn skip_whitespace(s: Seq<char>, p: int) -> int {
    p + run(s, p, CharClass::Whitespace)
}

/// Whether a text stands at a position.
pub open spec fn starts_with(s: Seq<char>, p: int, text: Seq<char>) -> bool {
    0 <= p && p + text.len() <= s.len() && s.subrange(p, p + text.len()) == text
}

/// A literal token at a position.
pub open spec fn literal(s: Seq<char>, p: int, token: Token) -> Outcome<()> {
    if starts_with(s, p, token.spelling()) {
        Outcome::matched((), p + token.spelling().len())
    } else {
        Outcome::failed(FailureRecord::at(p, token))
    }
}

/// The number that the digits from one position up to another write.
pub open spec fn digits_value(s: Seq<char>, from: int, to: int) -> nat
    decreases to - from,
{
    if from >= to {
        0
    } else {
        (10 * digits_value(s, from, to - 1) + (s[to - 1] as int - '0' as int)) as nat
    }
}

/// An integer: an optional `-`, one or more digits, a value that fits in
/// 32 bits.
#[verifier::opaque]
pub open spec fn raw_integer(s: Seq<char>, p: int) -> Outcome<i32> {
    let negative = 0 <= p < s.len() && s[p] == '-';
    let first = if negative {
        p + 1
    } else {
        p
    };
    let end = first + run(s, first, CharClass::Digit);
    let magnitude = digits_value(s, first, end);
    let value = if negative {
        -magnitude
    } else {
        magnitude as int
    };
    let sign = if negative {
        FailureRecord::none()
    } else {
        FailureRecord::at(p, Token::Minus)
    };
    let failure = sign.join(FailureRecord::at(end, Token::Digit));
    if end == first {
        Outcome::failed(failure)
    } else if i32::MIN <= value <= i32::MAX {
        Outcome { result: Some((value as i32, end)), failure }
    } else {
        Outcome::failed(failure.join(FailureRecord::at(end, Token::I32)))
    }
}

/// `true` or `false`.
pub open spec fn raw_boolean(s: Seq<char>, p: int) -> Outcome<bool> {
    let yes = literal(s, p, Token::True);
    let no = literal(s, p, Token::False).noting(yes.failure);
    if yes.is_match() {
        Outcome { result: Some((true, yes.next())), failure: yes.failure }
    } else if no.is_match() {
        Outcome { result: Some((false, no.next())), failure: no.failure }
    } else {
        Outcome::failed(no.failure)
    }
}

/// A string between double quotes, without the quotes. The rule is quiet:
/// where it does not match it reports only that a string literal was missed.
pub open spec fn string_literal(s: Seq<char>, p: int) -> Outcome<Seq<char>> {
    let close = p + 1 + run(s, p + 1, CharClass::NotQuote);
    if 0 <= p < s.len() && s[p] == '"' && close < s.len() {
        Outcome::matched(s.subrange(p + 1, close), close + 1)
    } else {
        Outcome::failed(FailureRecord::at(p, Token::StringLiteral))
    }
}

/// A letter, then letters, digits, `_`, `!` and `.`. The rule is quiet as
/// [`string_literal`] is.
pub open spec fn identifier(s: Seq<char>, p: int) -> Outcome<Seq<char>> {
    let end = p + 1 + run(s, p + 1, CharClass::IdentifierPart);
    if 0 <= p < s.len() && is_letter(s[p]) {
        Outcome::matched(s.subrange(p, end), end)
    } else {
        Outcome::failed(FailureRecord::at(p, Token::Identifier))
    }
}

/// The name of a sort: `Bool`, `Int`, `String` or `Char`, tried in this order.
pub open spec fn sort_name(s: Seq<char>, p: int) -> Outcome<SmtType> {
    let b = literal(s, p, Token::BoolSort);
    let i = literal(s, p, Token::IntSort).noting(b.failure);
    let t = literal(s, p, Token::StringSort).noting(i.failure);
    let c = literal(s, p, Token::CharSort).noting(t.failure);
    if b.is_match() {
        Outcome { result: Some((SmtType::Bool, b.next())), failure: b.failure }
    } else if i.is_match() {
        Outcome { result: Some((SmtType::Int, i.next())), failure: i.failure }
    } else if t.is_match() {
        Outcome { result: Some((SmtType::String, t.next())), failure: t.failure }
    } else if c.is_match() {
        Outcome { result: Some((SmtType::Char, c.next())), failure: c.failure }
    } else {
        Outcome::failed(c.failure)
    }
}

/// `(`, whitespace, a head literal, whitespace: how five of the bracketed
/// forms begin.
pub open spec fn opening(s: Seq<char>, p: int, head: Token) -> Outcome<()> {
    let open = literal(s, p, Token::OpenParen);
    if !open.is_match() {
        open
    } else {
        let word = literal(s, skip_whitespace(s, open.next()), head);
        if !word.is_match() {
            word
        } else {
            Outcome::matched((), skip_whitespace(s, word.next()))
        }
    }
}

/// Whitespace, then `)`: how every bracketed form ends.
pub open spec fn closing(s: Seq<char>, p: int) -> Outcome<()> {
    literal(s, skip_whitespace(s, p), Token::CloseParen)
}

/// An expression: the first of ten alternatives that matches.
pub open spec fn expression(s: Seq<char>, p: int) -> Outcome<ExpressionView>
    decreases remaining(s, p), 2int,
{
    let a1 = integer(s, p);
    let a2 = boolean(s, p).noting(a1.failure);
    let a3 = string(s, p).noting(a2.failure);
    if a1.is_match() {
        a1
    } else if a2.is_match() {
        a2
    } else if a3.is_match() {
        a3
    } else {
        let a4 = equality(s, p).noting(a3.failure);
        if a4.is_match() {
            a4
        } else {
            let a5 = conjunction(s, p).noting(a4.failure);
            if a5.is_match() {
                a5
            } else {
                let a6 = conditional(s, p).noting(a5.failure);
                if a6.is_match() {
                    a6
                } else {
                    let a7 = cast(s, p).noting(a6.failure);
                    if a7.is_match() {
                        a7
                    } else {
                        let a8 = parentheses(s, p).noting(a7.failure);
                        if a8.is_match() {
                            a8
                        } else {
                            let a9 = identifier_expression(s, p).noting(a8.failure);
                            if a9.is_match() {
                                a9
                            } else {
                                function_call(s, p).noting(a9.failure)
                            }
                        }
                    }
                }
            }
        }
    }
}

/// An integer literal.
pub open spec fn integer(s: Seq<char>, p: int) -> Outcome<ExpressionView> {
    let number = raw_integer(s, p);
    Outcome {
        result: match number.result {
            Some((value, next)) => Some((ExpressionView::Integer(value), next)),
            None => None,
        },
        failure: number.failure,
    }
}

/// A boolean literal.
pub open spec fn boolean(s: Seq<char>, p: int) -> Outcome<ExpressionView> {
    let truth = raw_boolean(s, p);
    Outcome {
        result: match truth.result {
            Some((value, next)) => Some((ExpressionView::Boolean(value), next)),
            None => None,
        },
        failure: truth.failure,
    }
}

/// A string literal.
pub open spec fn string(s: Seq<char>, p: int) -> Outcome<ExpressionView> {
    let text = string_literal(s, p);
    Outcome {
        result: match text.result {
            Some((value, next)) => Some((ExpressionView::String(value), next)),
            None => None,
        },
        failure: text.failure,
    }
}

/// An identifier that stands as an expression.
pub open spec fn identifier_expression(s: Seq<char>, p: int) -> Outcome<ExpressionView> {
    let name = identifier(s, p);
    Outcome {
        result: match name.result {
            Some((value, next)) => Some((ExpressionView::Identifier(value), next)),
            None => None,
        },
        failure: name.failure,
    }
}

/// Expressions in a row, each followed by whitespace: as many as match,
/// or as many as match up to a limit. The rule always matches; its record
/// holds what the expressions missed and what ended the row.
///
/// The row goes on only behind an expression that took at least one
/// character, which every expression that matches does.
pub open spec fn expressions(s: Seq<char>, p: int, limit: Option<nat>) -> Outcome<
    Seq<ExpressionView>,
>
    decreases remaining(s, p), 3int,
{
    if limit == Some(0nat) {
        Outcome::matched(Seq::empty(), p)
    } else {
        let first = expression(s, p);
        if first.is_match() && p < first.next() && p < s.len() {
            let rest = expressions(
                s,
                skip_whitespace(s, first.next()),
                match limit {
                    Some(n) => Some((n - 1) as nat),
                    None => None,
                },
            );
            Outcome {
                result: Some((seq![first.value()] + rest.value(), rest.next())),
                failure: first.failure.join(rest.failure),
            }
        } else {
            Outcome { result: Some((Seq::empty(), p)), failure: first.failure }
        }
    }
}

/// A head literal in brackets with one or more operands: the shape of an
/// equality and of a conjunction.
pub open spec fn operator_form(s: Seq<char>, p: int, head: Token) -> Outcome<
    Seq<ExpressionView>,
>
    decreases remaining(s, p), 0int,
{
    let start = opening(s, p, head);
    if !start.is_match() {
        Outcome::failed(start.failure)
    } else {
        let operands = expressions(s, start.next(), None);
        let end = closing(s, operands.next()).noting(operands.failure);
        if operands.value().len() == 0 {
            Outcome::failed(operands.failure)
        } else if !end.is_match() {
            Outcome::failed(end.failure)
        } else {
            Outcome { result: Some((operands.value(), end.next())), failure: end.failure }
        }
    }
}

/// `(= e1 .. en)` with at least one operand.
pub open spec fn equality(s: Seq<char>, p: int) -> Outcome<ExpressionView>
    decreases remaining(s, p), 1int,
{
    let form = operator_form(s, p, Token::Equals);
    Outcome {
        result: match form.result {
            Some((operands, next)) => Some((ExpressionView::Eq(operands), next)),
            None => None,
        },
        failure: form.failure,
    }
}

/// `(and e1 .. en)` with at least one operand.
pub open spec fn conjunction(s: Seq<char>, p: int) -> Outcome<ExpressionView>
    decreases remaining(s, p), 1int,
{
    let form = operator_form(s, p, Token::And);
    Outcome {
        result: match form.result {
            Some((operands, next)) => Some((ExpressionView::And(operands), next)),
            None => None,
        },
        failure: form.failure,
    }
}

/// `(ite condition then else)`: exactly three expressions behind the head.
pub open spec fn conditional(s: Seq<char>, p: int) -> Outcome<ExpressionView>
    decreases remaining(s, p), 1int,
{
    let start = opening(s, p, Token::Ite);
    if !start.is_match() {
        Outcome::failed(start.failure)
    } else {
        let parts = expressions(s, start.next(), Some(3nat));
        let end = closing(s, parts.next()).noting(parts.failure);
        if parts.value().len() != 3 {
            Outcome::failed(parts.failure)
        } else if !end.is_match() {
            Outcome::failed(end.failure)
        } else {
            Outcome {
                result: Some(
                    (
                        ExpressionView::Ite(
                            Box::new(parts.value()[0]),
                            Box::new(parts.value()[1]),
                            Box::new(parts.value()[2]),
                        ),
                        end.next(),
                    ),
                ),
                failure: end.failure,
            }
        }
    }
}

/// `(_ sort integer)`.
#[verifier::opaque]
pub open spec fn cast(s: Seq<char>, p: int) -> Outcome<ExpressionView> {
    let start = opening(s, p, Token::Underscore);
    if !start.is_match() {
        Outcome::failed(start.failure)
    } else {
        let target = sort_name(s, start.next());
        if !target.is_match() {
            Outcome::failed(target.failure)
        } else {
            let raw = raw_integer(s, skip_whitespace(s, target.next())).noting(target.failure);
            if !raw.is_match() {
                Outcome::failed(raw.failure)
            } else {
                let end = closing(s, raw.next()).noting(raw.failure);
                if !end.is_match() {
                    Outcome::failed(end.failure)
                } else {
                    Outcome {
                        result: Some((ExpressionView::Cast(target.value(), raw.value()), end.next())),
                        failure: end.failure,
                    }
                }
            }
        }
    }
}

/// `( e )`: one expression in brackets.
pub open spec fn parentheses(s: Seq<char>, p: int) -> Outcome<ExpressionView>
    decreases remaining(s, p), 1int,
{
    let open = literal(s, p, Token::OpenParen);
    if !open.is_match() {
        Outcome::failed(open.failure)
    } else {
        let inner = expression(s, skip_whitespace(s, open.next()));
        if !inner.is_match() {
            Outcome::failed(inner.failure)
        } else {
            let end = closing(s, inner.next()).noting(inner.failure);
            if !end.is_match() {
                Outcome::failed(end.failure)
            } else {
                Outcome {
                    result: Some((ExpressionView::Parentheses(Box::new(inner.value())), end.next())),
                    failure: end.failure,
                }
            }
        }
    }
}

/// `(name e1 .. en)` with at least one argument: the last alternative, which
/// takes what no other form took.
pub open spec fn function_call(s: Seq<char>, p: int) -> Outcome<ExpressionView>
    decreases remaining(s, p), 1int,
{
    let open = literal(s, p, Token::OpenParen);
    if !open.is_match() {
        Outcome::failed(open.failure)
    } else {
        let name = identifier(s, skip_whitespace(s, open.next()));
        if !name.is_match() {
            Outcome::failed(name.failure)
        } else {
            let arguments = expressions(s, skip_whitespace(s, name.next()), None);
            let end = closing(s, arguments.next()).noting(arguments.failure);
            if arguments.value().len() == 0 {
                Outcome::failed(arguments.failure)
            } else if !end.is_match() {
                Outcome::failed(end.failure)
            } else {
                Outcome {
                    result: Some(
                        (ExpressionView::FunctionCall(name.value(), arguments.value()), end.next()),
                    ),
                    failure: end.failure,
                }
            }
        }
    }
}

/// `(name sort)`: one parameter of a function.
pub open spec fn parameter(s: Seq<char>, p: int) -> Outcome<(Seq<char>, SmtType)> {
    let open = literal(s, p, Token::OpenParen);
    if !open.is_match() {
        Outcome::failed(open.failure)
    } else {
        let name = identifier(s, skip_whitespace(s, open.next()));
        if !name.is_match() {
            Outcome::failed(name.failure)
        } else {
            let sort = sort_name(s, skip_whitespace(s, name.next()));
            if !sort.is_match() {
                Outcome::failed(sort.failure)
            } else {
                let end = closing(s, sort.next()).noting(sort.failure);
                if !end.is_match() {
                    Outcome::failed(end.failure)
                } else {
                    Outcome {
                        result: Some(((name.value(), sort.value()), end.next())),
                        failure: end.failure,
                    }
                }
            }
        }
    }
}

/// Parameters in a row, each followed by whitespace, as many as match.
pub open spec fn parameters(s: Seq<char>, p: int) -> Outcome<Seq<(Seq<char>, SmtType)>>
    decreases remaining(s, p),
{
    let first = parameter(s, p);
    if first.is_match() && p < first.next() && p < s.len() {
        let rest = parameters(s, skip_whitespace(s, first.next()));
        Outcome {
            result: Some((seq![first.value()] + rest.value(), rest.next())),
            failure: first.failure.join(rest.failure),
        }
    } else {
        Outcome { result: Some((Seq::empty(), p)), failure: first.failure }
    }
}

/// `(define-fun name (parameters)`: the head of a function, up to the
/// bracket that closes its parameters.
#[verifier::opaque]
pub open spec fn function_head(s: Seq<char>, p: int) -> Outcome<
    (Seq<char>, Seq<(Seq<char>, SmtType)>),
> {
    let start = opening(s, p, Token::DefineFun);
    if !start.is_match() {
        Outcome::failed(start.failure)
    } else {
        let name = identifier(s, start.next());
        if !name.is_match() {
            Outcome::failed(name.failure)
        } else {
            let open = literal(s, skip_whitespace(s, name.next()), Token::OpenParen);
            if !open.is_match() {
                Outcome::failed(open.failure)
            } else {
                let params = parameters(s, skip_whitespace(s, open.next()));
                let close = closing(s, params.next()).noting(params.failure);
                if !close.is_match() {
                    Outcome::failed(close.failure)
                } else {
                    Outcome {
                        result: Some(((name.value(), params.value()), close.next())),
                        failure: close.failure,
                    }
                }
            }
        }
    }
}

/// `(define-fun name (parameters) sort body)`.
pub open spec fn function(s: Seq<char>, p: int) -> Outcome<FunctionView> {
    let head = function_head(s, p);
    if !head.is_match() {
        Outcome::failed(head.failure)
    } else {
        let sort = sort_name(s, skip_whitespace(s, head.next())).noting(head.failure);
        if !sort.is_match() {
            Outcome::failed(sort.failure)
        } else {
            let body = expression(s, skip_whitespace(s, sort.next())).noting(sort.failure);
            if !body.is_match() {
                Outcome::failed(body.failure)
            } else {
                let end = closing(s, body.next()).noting(body.failure);
                if !end.is_match() {
                    Outcome::failed(end.failure)
                } else {
                    Outcome {
                        result: Some(
                            (
                                FunctionView {
                                    name: head.value().0,
                                    params: head.value().1,
                                    return_type: sort.value(),
                                    body: body.value(),
                                },
                                end.next(),
                            ),
                        ),
                        failure: end.failure,
                    }
                }
            }
        }
    }
}

/// Functions in a row, each followed by whitespace, as many as match.
pub open spec fn functions(s: Seq<char>, p: int) -> Outcome<Seq<FunctionView>>
    decreases remaining(s, p),
{
    let first = function(s, p);
    if first.is_match() && p < first.next() && p < s.len() {
        let rest = functions(s, skip_whitespace(s, first.next()));
        Outcome {
            result: Some((seq![first.value()] + rest.value(), rest.next())),
            failure: first.failure.join(rest.failure),
        }
    } else {
        Outcome { result: Some((Seq::empty(), p)), failure: first.failure }
    }
}

/// `sat (functions)`, with whitespace allowed behind it.
pub open spec fn model(s: Seq<char>, p: int) -> Outcome<Seq<FunctionView>> {
    let verdict = literal(s, p, Token::Sat);
    if !verdict.is_match() {
        Outcome::failed(verdict.failure)
    } else {
        let open = literal(s, skip_whitespace(s, verdict.next()), Token::OpenParen);
        if !open.is_match() {
            Outcome::failed(open.failure)
        } else {
            let list = functions(s, skip_whitespace(s, open.next()));
            let end = closing(s, list.next()).noting(list.failure);
            if !end.is_match() {
                Outcome::failed(end.failure)
            } else {
                Outcome {
                    result: Some((list.value(), skip_whitespace(s, end.next()))),
                    failure: end.failure,
                }
            }
        }
    }
}

/// What a whole text is read as: the functions of the model where the text
/// is a model from its first character to its last, and otherwise the
/// farthest position at which a token was missed, with the tokens missed
/// there.
pub open spec fn parse(s: Seq<char>) -> Result<Seq<FunctionView>, FailureRecord> {
    let whole = model(s, 0);
    if !whole.is_match() {
        Err(whole.failure)
    } else if whole.next() < s.len() {
        Err(whole.failure.join(FailureRecord::at(whole.next(), Token::EndOfInput)))
    } else {
        Ok(whole.value())
    }
}

} // verus!
