//! What holds of everything the grammar reads.

use super::expression::{all_have_operands, has_operands};
use super::grammar;
use super::grammar::{remaining, run, skip_whitespace, CharClass};
use super::token::Token;
use vstd::prelude::*;

verus! {

/// A run ends within the text, and what ends it is not of its class.
pub proof fn lemma_run_end(s: Seq<char>, x: int, class: CharClass)
    requires
        0 <= x <= s.len(),
    ensures
        x + run(s, x, class) <= s.len(),
        x + run(s, x, class) < s.len() ==> !class.holds(s[x + run(s, x, class)]),
        forall|i: int| x <= i < x + run(s, x, class) ==> class.holds(#[trigger] s[i]),
    decreases s.len() - x,
{
    if x < s.len() && class.holds(s[x]) {
        lemma_run_end(s, x + 1, class);
    }
}

/// An integer that is read holds a character and ends within the text.
pub proof fn lemma_raw_integer_advances(s: Seq<char>, p: int)
    ensures
        grammar::raw_integer(s, p).is_match() ==> 0 <= p < grammar::raw_integer(s, p).next()
            <= s.len(),
{
    reveal(grammar::raw_integer);
    if 0 <= p <= s.len() {
        let first = if p < s.len() && s[p] == '-' {
            p + 1
        } else {
            p
        };
        lemma_run_end(s, first, CharClass::Digit);
    }
}

/// The start of a bracketed form that is read ends within the text.
pub proof fn lemma_opening_advances(s: Seq<char>, p: int, head: Token)
    ensures
        grammar::opening(s, p, head).is_match() ==> 0 <= p < grammar::opening(s, p, head).next()
            <= s.len(),
{
    let open = grammar::literal(s, p, Token::OpenParen);
    if open.is_match() {
        lemma_run_end(s, open.next(), CharClass::Whitespace);
        let word = grammar::literal(s, skip_whitespace(s, open.next()), head);
        if word.is_match() {
            lemma_run_end(s, word.next(), CharClass::Whitespace);
        }
    }
}

/// The end of a bracketed form that is read ends within the text.
pub proof fn lemma_closing_advances(s: Seq<char>, p: int)
    requires
        0 <= p <= s.len(),
    ensures
        grammar::closing(s, p).is_match() ==> p < grammar::closing(s, p).next() <= s.len(),
{
    lemma_run_end(s, p, CharClass::Whitespace);
}

/// An expression that is read holds at least one character and ends
/// within the text: a row of expressions never stops for an expression
/// that read nothing.
#[verifier::rlimit(40)]
pub proof fn law_expression_advances(s: Seq<char>, p: int)
    ensures
        grammar::expression(s, p).is_match() ==> 0 <= p < grammar::expression(s, p).next()
            <= s.len(),
    decreases remaining(s, p), 2int,
{
    lemma_raw_integer_advances(s, p);
    law_operator_form_advances(s, p, Token::Equals);
    law_operator_form_advances(s, p, Token::And);
    law_conditional_advances(s, p);
    law_cast_advances(s, p);
    law_parentheses_advances(s, p);
    law_function_call_advances(s, p);
    if 0 <= p < s.len() {
        lemma_run_end(s, p + 1, CharClass::NotQuote);
        lemma_run_end(s, p + 1, CharClass::IdentifierPart);
    }
}

/// A row of expressions ends within the text, behind its start or at it.
pub proof fn law_expressions_advance(s: Seq<char>, p: int, limit: Option<nat>)
    requires
        0 <= p <= s.len(),
    ensures
        grammar::expressions(s, p, limit).is_match(),
        p <= grammar::expressions(s, p, limit).next() <= s.len(),
    decreases remaining(s, p), 3int,
{
    if limit != Some(0nat) {
        law_expression_advances(s, p);
        let first = grammar::expression(s, p);
        if first.is_match() {
            lemma_run_end(s, first.next(), CharClass::Whitespace);
            law_expressions_advance(
                s,
                skip_whitespace(s, first.next()),
                match limit {
                    Some(n) => Some((n - 1) as nat),
                    None => None,
                },
            );
        }
    }
}

/// An equality or a conjunction that is read ends within the text.
pub proof fn law_operator_form_advances(s: Seq<char>, p: int, head: Token)
    ensures
        grammar::operator_form(s, p, head).is_match() ==> 0 <= p < grammar::operator_form(
            s,
            p,
            head,
        ).next() <= s.len(),
    decreases remaining(s, p), 0int,
{
    lemma_opening_advances(s, p, head);
    let start = grammar::opening(s, p, head);
    if start.is_match() {
        law_expressions_advance(s, start.next(), None);
        lemma_closing_advances(s, grammar::expressions(s, start.next(), None).next());
    }
}

/// A conditional that is read ends within the text.
pub proof fn law_conditional_advances(s: Seq<char>, p: int)
    ensures
        grammar::conditional(s, p).is_match() ==> 0 <= p < grammar::conditional(s, p).next()
            <= s.len(),
    decreases remaining(s, p), 1int,
{
    lemma_opening_advances(s, p, Token::Ite);
    let start = grammar::opening(s, p, Token::Ite);
    if start.is_match() {
        law_expressions_advance(s, start.next(), Some(3nat));
        lemma_closing_advances(s, grammar::expressions(s, start.next(), Some(3nat)).next());
    }
}

/// A cast that is read ends within the text.
#[verifier::rlimit(40)]
pub proof fn law_cast_advances(s: Seq<char>, p: int)
    ensures
        grammar::cast(s, p).is_match() ==> 0 <= p < grammar::cast(s, p).next() <= s.len(),
{
    reveal(grammar::cast);
    lemma_opening_advances(s, p, Token::Underscore);
    let start = grammar::opening(s, p, Token::Underscore);
    if start.is_match() {
        let target = grammar::sort_name(s, start.next());
        if target.is_match() {
            lemma_run_end(s, target.next(), CharClass::Whitespace);
            lemma_raw_integer_advances(s, skip_whitespace(s, target.next()));
            let raw = grammar::raw_integer(s, skip_whitespace(s, target.next()));
            if raw.is_match() {
                lemma_closing_advances(s, raw.next());
            }
        }
    }
}

/// An expression in brackets that is read ends within the text.
pub proof fn law_parentheses_advances(s: Seq<char>, p: int)
    ensures
        grammar::parentheses(s, p).is_match() ==> 0 <= p < grammar::parentheses(s, p).next()
            <= s.len(),
    decreases remaining(s, p), 1int,
{
    let open = grammar::literal(s, p, Token::OpenParen);
    if open.is_match() {
        lemma_run_end(s, open.next(), CharClass::Whitespace);
        law_expression_advances(s, skip_whitespace(s, open.next()));
        let inner = grammar::expression(s, skip_whitespace(s, open.next()));
        if inner.is_match() {
            lemma_closing_advances(s, inner.next());
        }
    }
}

/// A function call that is read ends within the text.
pub proof fn law_function_call_advances(s: Seq<char>, p: int)
    ensures
        grammar::function_call(s, p).is_match() ==> 0 <= p < grammar::function_call(s, p).next()
            <= s.len(),
    decreases remaining(s, p), 1int,
{
    let open = grammar::literal(s, p, Token::OpenParen);
    if open.is_match() {
        lemma_run_end(s, open.next(), CharClass::Whitespace);
        let name = grammar::identifier(s, skip_whitespace(s, open.next()));
        if name.is_match() {
            lemma_run_end(s, skip_whitespace(s, open.next()) + 1, CharClass::IdentifierPart);
            lemma_run_end(s, name.next(), CharClass::Whitespace);
            law_expressions_advance(s, skip_whitespace(s, name.next()), None);
            lemma_closing_advances(
                s,
                grammar::expressions(s, skip_whitespace(s, name.next()), None).next(),
            );
        }
    }
}

/// A parameter that is read holds at least one character and ends within
/// the text.
pub proof fn law_parameter_advances(s: Seq<char>, p: int)
    ensures
        grammar::parameter(s, p).is_match() ==> 0 <= p < grammar::parameter(s, p).next()
            <= s.len(),
{
    let open = grammar::literal(s, p, Token::OpenParen);
    if open.is_match() {
        lemma_run_end(s, open.next(), CharClass::Whitespace);
        let name = grammar::identifier(s, skip_whitespace(s, open.next()));
        if name.is_match() {
            lemma_run_end(s, skip_whitespace(s, open.next()) + 1, CharClass::IdentifierPart);
            lemma_run_end(s, name.next(), CharClass::Whitespace);
            let sort = grammar::sort_name(s, skip_whitespace(s, name.next()));
            if sort.is_match() {
                lemma_closing_advances(s, sort.next());
            }
        }
    }
}

/// The head of a function that is read ends within the text.
#[verifier::rlimit(40)]
pub proof fn lemma_function_head_advances(s: Seq<char>, p: int)
    ensures
        grammar::function_head(s, p).is_match() ==> 0 <= p < grammar::function_head(s, p).next()
            <= s.len(),
{
    reveal(grammar::function_head);
    lemma_opening_advances(s, p, Token::DefineFun);
    let start = grammar::opening(s, p, Token::DefineFun);
    if start.is_match() {
        let name = grammar::identifier(s, start.next());
        if name.is_match() {
            lemma_run_end(s, start.next() + 1, CharClass::IdentifierPart);
            lemma_run_end(s, name.next(), CharClass::Whitespace);
            let open = grammar::literal(s, skip_whitespace(s, name.next()), Token::OpenParen);
            if open.is_match() {
                lemma_run_end(s, open.next(), CharClass::Whitespace);
                lemma_parameters_advance(s, skip_whitespace(s, open.next()));
                lemma_closing_advances(
                    s,
                    grammar::parameters(s, skip_whitespace(s, open.next())).next(),
                );
            }
        }
    }
}

/// A row of parameters ends within the text, behind its start or at it.
pub proof fn lemma_parameters_advance(s: Seq<char>, p: int)
    requires
        0 <= p <= s.len(),
    ensures
        grammar::parameters(s, p).is_match(),
        p <= grammar::parameters(s, p).next() <= s.len(),
    decreases remaining(s, p),
{
    law_parameter_advances(s, p);
    let first = grammar::parameter(s, p);
    if first.is_match() {
        lemma_run_end(s, first.next(), CharClass::Whitespace);
        lemma_parameters_advance(s, skip_whitespace(s, first.next()));
    }
}

/// A function that is read holds at least one character and ends within
/// the text.
#[verifier::rlimit(40)]
pub proof fn law_function_advances(s: Seq<char>, p: int)
    ensures
        grammar::function(s, p).is_match() ==> 0 <= p < grammar::function(s, p).next()
            <= s.len(),
{
    lemma_function_head_advances(s, p);
    let head = grammar::function_head(s, p);
    if head.is_match() {
        lemma_run_end(s, head.next(), CharClass::Whitespace);
        let sort = grammar::sort_name(s, skip_whitespace(s, head.next()));
        if sort.is_match() {
            lemma_run_end(s, sort.next(), CharClass::Whitespace);
            let at = skip_whitespace(s, sort.next());
            law_expression_advances(s, at);
            let body = grammar::expression(s, at);
            if body.is_match() {
                lemma_closing_advances(s, body.next());
            }
        }
    }
}

/// Every operator of a tree that the grammar builds has at least one
/// operand, at every depth of the tree.
#[verifier::rlimit(40)]
pub proof fn law_expression_has_operands(s: Seq<char>, p: int)
    ensures
        grammar::expression(s, p).is_match() ==> has_operands(grammar::expression(s, p).value()),
    decreases remaining(s, p), 2int,
{
    reveal(grammar::cast);
    lemma_operator_form_has_operands(s, p, Token::Equals);
    lemma_operator_form_has_operands(s, p, Token::And);
    lemma_conditional_has_operands(s, p);
    lemma_parentheses_has_operands(s, p);
    lemma_function_call_has_operands(s, p);
}

/// Every tree of a row that the grammar builds has its operands.
pub proof fn lemma_expressions_have_operands(s: Seq<char>, p: int, limit: Option<nat>)
    ensures
        grammar::expressions(s, p, limit).is_match(),
        forall|i: int|
            0 <= i < grammar::expressions(s, p, limit).value().len() ==> has_operands(
                #[trigger] grammar::expressions(s, p, limit).value()[i],
            ),
    decreases remaining(s, p), 3int,
{
    if limit != Some(0nat) {
        law_expression_has_operands(s, p);
        let first = grammar::expression(s, p);
        if first.is_match() && p < first.next() && p < s.len() {
            lemma_expressions_have_operands(
                s,
                skip_whitespace(s, first.next()),
                match limit {
                    Some(n) => Some((n - 1) as nat),
                    None => None,
                },
            );
        }
    }
}

/// The operands of an equality or a conjunction that the grammar builds
/// are there and have theirs.
pub proof fn lemma_operator_form_has_operands(s: Seq<char>, p: int, head: Token)
    ensures
        grammar::operator_form(s, p, head).is_match() ==> all_have_operands(
            grammar::operator_form(s, p, head).value(),
        ),
    decreases remaining(s, p), 0int,
{
    lemma_opening_advances(s, p, head);
    let start = grammar::opening(s, p, head);
    if start.is_match() {
        lemma_expressions_have_operands(s, start.next(), None);
    }
}

/// The three parts of a conditional that the grammar builds have their
/// operands.
pub proof fn lemma_conditional_has_operands(s: Seq<char>, p: int)
    ensures
        grammar::conditional(s, p).is_match() ==> has_operands(
            grammar::conditional(s, p).value(),
        ),
    decreases remaining(s, p), 1int,
{
    lemma_opening_advances(s, p, Token::Ite);
    let start = grammar::opening(s, p, Token::Ite);
    if start.is_match() {
        lemma_expressions_have_operands(s, start.next(), Some(3nat));
    }
}

/// An expression in brackets that the grammar builds has its operands.
pub proof fn lemma_parentheses_has_operands(s: Seq<char>, p: int)
    ensures
        grammar::parentheses(s, p).is_match() ==> has_operands(
            grammar::parentheses(s, p).value(),
        ),
    decreases remaining(s, p), 1int,
{
    let open = grammar::literal(s, p, Token::OpenParen);
    if open.is_match() {
        law_expression_has_operands(s, skip_whitespace(s, open.next()));
    }
}

/// The arguments of a function call that the grammar builds are there and
/// have their operands.
pub proof fn lemma_function_call_has_operands(s: Seq<char>, p: int)
    ensures
        grammar::function_call(s, p).is_match() ==> has_operands(
            grammar::function_call(s, p).value(),
        ),
    decreases remaining(s, p), 1int,
{
    let open = grammar::literal(s, p, Token::OpenParen);
    if open.is_match() {
        let name = grammar::identifier(s, skip_whitespace(s, open.next()));
        if name.is_match() {
            lemma_expressions_have_operands(s, skip_whitespace(s, name.next()), None);
            let arguments = grammar::expressions(s, skip_whitespace(s, name.next()), None);
            if arguments.value().len() > 0 {
                assert(all_have_operands(arguments.value()));
            }
        }
    }
}

/// The body of every function of a row that the grammar reads has its
/// operands.
pub proof fn lemma_functions_have_operands(s: Seq<char>, p: int)
    ensures
        grammar::functions(s, p).is_match(),
        forall|i: int|
            0 <= i < grammar::functions(s, p).value().len() ==> has_operands(
                (#[trigger] grammar::functions(s, p).value()[i]).body,
            ),
    decreases remaining(s, p),
{
    let first = grammar::function(s, p);
    if first.is_match() && p < first.next() && p < s.len() {
        let head = grammar::function_head(s, p);
        let sort = grammar::sort_name(s, skip_whitespace(s, head.next()));
        law_expression_has_operands(s, skip_whitespace(s, sort.next()));
        lemma_functions_have_operands(s, skip_whitespace(s, first.next()));
    }
}

/// In every model that the grammar reads, every operator that takes a
/// list of operands has at least one.
pub proof fn law_model_has_operands(s: Seq<char>, i: int)
    requires
        grammar::parse(s) is Ok,
        0 <= i < grammar::parse(s)->Ok_0.len(),
    ensures
        has_operands(grammar::parse(s)->Ok_0[i].body),
{
    let verdict = grammar::literal(s, 0, Token::Sat);
    let open = grammar::literal(s, skip_whitespace(s, verdict.next()), Token::OpenParen);
    lemma_functions_have_operands(s, skip_whitespace(s, open.next()));
}

} // verus!
