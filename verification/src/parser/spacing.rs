//! Whitespace between the tokens of a model does not change what is read.
//!
//! A token is what one of the smallest rules of the grammar reads as a
//! unit: a literal, an identifier, an integer, a string. A position lies
//! between tokens when no such unit that could start before it reaches
//! beyond it, wherever in the text it starts; so a head written straight
//! before a name, as in `andx`, counts with the name as one token. A run
//! of whitespace put at a position between tokens leaves the functions of
//! a model as they were, and leaves every other such position where more
//! whitespace can follow.

use super::grammar;
use super::grammar::{
    is_letter, remaining, run, skip_whitespace, starts_with, CharClass, Outcome,
};
use super::laws::lemma_run_end;
use super::lexical::{is_letter as letter, literal, skip_run};
use super::token::Token;
use super::FunctionView;
use crate::text::characters;
use vstd::prelude::*;

verus! {

/// Whether a text is made of whitespace alone.
pub open spec fn is_blank(w: Seq<char>) -> bool {
    forall|i: int| 0 <= i < w.len() ==> CharClass::Whitespace.holds(#[trigger] w[i])
}

/// A text with another put in at a position.
pub open spec fn spread(s: Seq<char>, g: int, w: Seq<char>) -> Seq<char> {
    s.subrange(0, g) + w + s.subrange(g, s.len() as int)
}

/// How many double quotes stand before a position.
pub open spec fn quotes_before(s: Seq<char>, p: int) -> nat
    decreases p,
{
    if p <= 0 || p > s.len() {
        0
    } else if s[p - 1] == '"' {
        1 + quotes_before(s, p - 1)
    } else {
        quotes_before(s, p - 1)
    }
}

/// Whether a position lies outside every string: the quotes before it
/// come in pairs.
pub open spec fn outside_strings(s: Seq<char>, p: int) -> bool {
    quotes_before(s, p) % 2 == 0
}

/// Where the identifier that starts at a position ends; the position
/// itself where none starts there.
pub open spec fn word_end(s: Seq<char>, p: int) -> int {
    if 0 <= p < s.len() && is_letter(s[p]) {
        p + 1 + run(s, p + 1, CharClass::IdentifierPart)
    } else {
        p
    }
}

/// Where the digits of the number that starts at a position end; the
/// position itself where none starts there.
pub open spec fn number_end(s: Seq<char>, p: int) -> int {
    let first = if 0 <= p < s.len() && s[p] == '-' {
        p + 1
    } else {
        p
    };
    if run(s, first, CharClass::Digit) == 0 {
        p
    } else {
        first + run(s, first, CharClass::Digit)
    }
}

/// Where the string that starts at a position ends; the position itself
/// where none starts there.
pub open spec fn string_end(s: Seq<char>, p: int) -> int {
    let close = p + 1 + run(s, p + 1, CharClass::NotQuote);
    if 0 <= p < s.len() && s[p] == '"' && close < s.len() {
        close + 1
    } else {
        p
    }
}

/// Where the literal that stands at a position ends; the position itself
/// where the literal does not stand there.
pub open spec fn literal_end(s: Seq<char>, p: int, token: Token) -> int {
    if starts_with(s, p, token.spelling()) {
        p + token.spelling().len()
    } else {
        p
    }
}

/// Whether no token that starts at one position reaches beyond another.
/// A string counts where it starts outside every other string.
pub open spec fn clear_of(s: Seq<char>, p: int, g: int) -> bool {
    &&& word_end(s, p) <= g
    &&& number_end(s, p) <= g
    &&& outside_strings(s, p) ==> string_end(s, p) <= g
    &&& forall|token: Token| #[trigger] literal_end(s, p, token) <= g
}

/// Whether a position lies between tokens: it is not the start of the
/// text, and no identifier, number, string or literal that starts before
/// it, at whatever position, reaches beyond it.
pub open spec fn between_tokens(s: Seq<char>, g: int) -> bool {
    &&& 0 < g <= s.len()
    &&& forall|p: int| 0 <= p < g ==> #[trigger] clear_of(s, p, g)
}

/// What is assumed of a text, a position in it and a text put in there.
pub open spec fn spaced(s: Seq<char>, g: int, w: Seq<char>) -> bool {
    &&& between_tokens(s, g)
    &&& is_blank(w)
    &&& w.len() > 0
}

/// Where the start of a token lies once the whitespace is put in.
pub open spec fn moved(g: int, w: Seq<char>, p: int) -> int {
    if p < g {
        p
    } else {
        p + w.len()
    }
}

/// Where the end of a token lies once the whitespace is put in.
pub open spec fn ended(g: int, w: Seq<char>, q: int) -> int {
    if q <= g {
        q
    } else {
        q + w.len()
    }
}

/// Whether a token can start at a position: no whitespace stands there.
pub open spec fn at_token(s: Seq<char>, p: int) -> bool {
    0 <= p <= s.len() && (p < s.len() ==> !CharClass::Whitespace.holds(s[p]))
}

/// The characters of the spread text: those before the position, the
/// whitespace, those behind.
pub proof fn lemma_spread(s: Seq<char>, g: int, w: Seq<char>)
    requires
        0 <= g <= s.len(),
    ensures
        spread(s, g, w).len() == s.len() + w.len(),
        forall|i: int| 0 <= i < g ==> #[trigger] spread(s, g, w)[i] == s[i],
        forall|i: int| g <= i < g + w.len() ==> #[trigger] spread(s, g, w)[i] == w[i - g],
        forall|i: int|
            g + w.len() <= i < s.len() + w.len() ==> #[trigger] spread(s, g, w)[i] == s[i
                - w.len()],
{
}

/// Behind the whitespace a run is what it was.
pub proof fn lemma_run_behind(s: Seq<char>, g: int, w: Seq<char>, x: int, class: CharClass)
    requires
        0 <= g <= s.len(),
        g <= x,
    ensures
        run(spread(s, g, w), x + w.len(), class) == run(s, x, class),
    decreases s.len() - x,
{
    lemma_spread(s, g, w);
    if x < s.len() {
        assert(spread(s, g, w)[x + w.len()] == s[x]);
        if class.holds(s[x]) {
            lemma_run_behind(s, g, w, x + 1, class);
        }
    }
}

/// A run that ends before the whitespace is what it was.
pub proof fn lemma_run_before(s: Seq<char>, g: int, w: Seq<char>, x: int, class: CharClass)
    requires
        0 <= g <= s.len(),
        0 <= x,
        x + run(s, x, class) < g,
    ensures
        run(spread(s, g, w), x, class) == run(s, x, class),
    decreases g - x,
{
    lemma_spread(s, g, w);
    assert(spread(s, g, w)[x] == s[x]);
    if class.holds(s[x]) {
        lemma_run_before(s, g, w, x + 1, class);
    }
}

/// A run of digits or of the characters of an identifier that ends where
/// the whitespace is put ends there still.
pub proof fn lemma_run_up_to(s: Seq<char>, g: int, w: Seq<char>, x: int, class: CharClass)
    requires
        0 <= g <= s.len(),
        is_blank(w),
        w.len() > 0,
        0 <= x,
        x + run(s, x, class) == g,
        class == CharClass::Digit || class == CharClass::IdentifierPart,
    ensures
        run(spread(s, g, w), x, class) == run(s, x, class),
    decreases g - x,
{
    lemma_spread(s, g, w);
    if x < g {
        assert(spread(s, g, w)[x] == s[x]);
        lemma_run_up_to(s, g, w, x + 1, class);
    } else {
        assert(spread(s, g, w)[g] == w[0]);
        assert(CharClass::Whitespace.holds(w[0]));
    }
}

/// A run of a class takes in the whitespace put in where it is all of
/// that class.
pub proof fn lemma_run_through(s: Seq<char>, g: int, w: Seq<char>, x: int, class: CharClass)
    requires
        0 <= g <= s.len(),
        forall|i: int| 0 <= i < w.len() ==> class.holds(#[trigger] w[i]),
        0 <= x <= g + w.len(),
        x <= g ==> x + run(s, x, class) >= g,
    ensures
        x <= g ==> run(spread(s, g, w), x, class) == run(s, x, class) + w.len(),
        x > g ==> run(spread(s, g, w), x, class) == g + w.len() - x + run(s, g, class),
    decreases g + w.len() - x,
{
    lemma_spread(s, g, w);
    if x < g {
        assert(spread(s, g, w)[x] == s[x]);
        lemma_run_through(s, g, w, x + 1, class);
    } else if x < g + w.len() {
        assert(spread(s, g, w)[x] == w[x - g]);
        lemma_run_through(s, g, w, x + 1, class);
    } else {
        lemma_run_behind(s, g, w, g, class);
    }
}

/// Whether a rule reads after the whitespace is put in what it read
/// before, up to an end that lies where the end was.
pub open spec fn same_ended<T>(g: int, w: Seq<char>, after: Outcome<T>, before: Outcome<T>) -> bool {
    after.result == match before.result {
        Some((value, next)) => Some((value, ended(g, w, next))),
        None => None,
    }
}

/// Whether a rule reads after the whitespace is put in what it read
/// before, up to a start of the next token that lies where that start was.
pub open spec fn same_moved<T>(g: int, w: Seq<char>, after: Outcome<T>, before: Outcome<T>) -> bool {
    after.result == match before.result {
        Some((value, next)) => Some((value, moved(g, w, next))),
        None => None,
    }
}

/// Where no quote stands between two positions, as many quotes stand
/// before the one as before the other.
pub proof fn lemma_quotes_over(s: Seq<char>, a: int, b: int)
    requires
        0 <= a <= b <= s.len(),
        forall|i: int| a <= i < b ==> #[trigger] s[i] != '"',
    ensures
        quotes_before(s, b) == quotes_before(s, a),
    decreases b - a,
{
    if a < b {
        lemma_quotes_over(s, a, b - 1);
    }
}

/// No literal holds whitespace or a quote, and every literal has a
/// character.
pub proof fn lemma_spelling_plain(token: Token)
    requires
        token.spelling().len() > 0,
    ensures
        forall|i: int|
            0 <= i < token.spelling().len() ==> !CharClass::Whitespace.holds(
                #[trigger] token.spelling()[i],
            ) && token.spelling()[i] != '"',
{
}

/// Skipping whitespace from the end of a token leads to the start of the
/// same token as before.
pub proof fn lemma_skip(s: Seq<char>, g: int, w: Seq<char>, q: int)
    requires
        spaced(s, g, w),
        0 <= q <= s.len(),
    ensures
        skip_whitespace(spread(s, g, w), ended(g, w, q)) == moved(g, w, skip_whitespace(s, q)),
        at_token(s, skip_whitespace(s, q)),
        q <= skip_whitespace(s, q) <= s.len(),
        quotes_before(s, skip_whitespace(s, q)) == quotes_before(s, q),
{
    let class = CharClass::Whitespace;
    lemma_run_end(s, q, class);
    lemma_quotes_over(s, q, skip_whitespace(s, q));
    if q > g {
        lemma_run_behind(s, g, w, q, class);
    } else if q + run(s, q, class) < g {
        lemma_run_before(s, g, w, q, class);
    } else {
        lemma_run_through(s, g, w, q, class);
    }
}

/// Skipping whitespace from the start of a token leads nowhere else.
pub proof fn lemma_skip_at_token(s: Seq<char>, g: int, w: Seq<char>, p: int)
    requires
        spaced(s, g, w),
        at_token(s, p),
    ensures
        skip_whitespace(s, p) == p,
        skip_whitespace(spread(s, g, w), moved(g, w, p)) == moved(g, w, p),
{
    lemma_spread(s, g, w);
}

/// A literal is read after as before.
#[verifier::rlimit(40)]
pub proof fn lemma_literal(s: Seq<char>, g: int, w: Seq<char>, p: int, token: Token)
    requires
        spaced(s, g, w),
        0 <= p <= s.len(),
        token.spelling().len() > 0,
    ensures
        same_ended(
            g,
            w,
            grammar::literal(spread(s, g, w), moved(g, w, p), token),
            grammar::literal(s, p, token),
        ),
        grammar::literal(s, p, token).is_match() ==> p < grammar::literal(s, p, token).next()
            <= s.len() && quotes_before(s, grammar::literal(s, p, token).next())
            == quotes_before(s, p),
{
    let t = spread(s, g, w);
    let text = token.spelling();
    let k = text.len() as int;
    lemma_spread(s, g, w);
    lemma_spelling_plain(token);
    if starts_with(s, p, text) {
        assert forall|i: int| p <= i < p + k implies #[trigger] s[i] != '"' by {
            assert(s.subrange(p, p + k)[i - p] == text[i - p]);
        }
        lemma_quotes_over(s, p, p + k);
    }
    if p >= g {
        if p + k <= s.len() {
            assert(t.subrange(p + w.len(), p + w.len() + k) =~= s.subrange(p, p + k));
        }
    } else {
        assert(clear_of(s, p, g));
        assert(literal_end(s, p, token) <= g);
        if p + k <= g {
            assert(t.subrange(p, p + k) =~= s.subrange(p, p + k));
        } else {
            assert(!starts_with(s, p, text));
            if starts_with(t, p, text) {
                assert(t.subrange(p, p + k)[g - p] == text[g - p]);
                assert(t[g] == w[0]);
                assert(CharClass::Whitespace.holds(w[0]));
            }
        }
    }
}

/// An identifier is read after as before.
pub proof fn lemma_identifier(s: Seq<char>, g: int, w: Seq<char>, p: int)
    requires
        spaced(s, g, w),
        0 <= p <= s.len(),
    ensures
        same_ended(
            g,
            w,
            grammar::identifier(spread(s, g, w), moved(g, w, p)),
            grammar::identifier(s, p),
        ),
        grammar::identifier(s, p).is_match() ==> p < grammar::identifier(s, p).next() <= s.len()
            && quotes_before(s, grammar::identifier(s, p).next()) == quotes_before(s, p),
{
    let t = spread(s, g, w);
    let class = CharClass::IdentifierPart;
    lemma_spread(s, g, w);
    if p < s.len() {
        lemma_run_end(s, p + 1, class);
        let end = p + 1 + run(s, p + 1, class);
        if is_letter(s[p]) {
            lemma_quotes_over(s, p, end);
        }
        if p >= g {
            assert(t[p + w.len()] == s[p]);
            lemma_run_behind(s, g, w, p + 1, class);
            assert(t.subrange(p + w.len(), end + w.len()) =~= s.subrange(p, end));
        } else {
            assert(t[p] == s[p]);
            if is_letter(s[p]) {
                assert(clear_of(s, p, g));
                if end < g {
                    lemma_run_before(s, g, w, p + 1, class);
                } else {
                    lemma_run_up_to(s, g, w, p + 1, class);
                }
                assert(t.subrange(p, end) =~= s.subrange(p, end));
            }
        }
    }
}

/// The same digits write the same number.
pub proof fn lemma_digits_same(a: Seq<char>, from: int, b: Seq<char>, start: int, count: int)
    requires
        0 <= count,
        forall|i: int| 0 <= i < count ==> #[trigger] a[from + i] == b[start + i],
    ensures
        grammar::digits_value(a, from, from + count) == grammar::digits_value(
            b,
            start,
            start + count,
        ),
    decreases count,
{
    if count > 0 {
        lemma_digits_same(a, from, b, start, count - 1);
        assert(a[from + (count - 1)] == b[start + (count - 1)]);
    }
}

/// An integer is read after as before.
#[verifier::rlimit(40)]
pub proof fn lemma_raw_integer(s: Seq<char>, g: int, w: Seq<char>, p: int)
    requires
        spaced(s, g, w),
        0 <= p <= s.len(),
    ensures
        same_ended(
            g,
            w,
            grammar::raw_integer(spread(s, g, w), moved(g, w, p)),
            grammar::raw_integer(s, p),
        ),
        grammar::raw_integer(s, p).is_match() ==> p < grammar::raw_integer(s, p).next()
            <= s.len() && quotes_before(s, grammar::raw_integer(s, p).next()) == quotes_before(
            s,
            p,
        ),
{
    reveal(grammar::raw_integer);
    let t = spread(s, g, w);
    let class = CharClass::Digit;
    lemma_spread(s, g, w);
    let negative = p < s.len() && s[p] == '-';
    let first = if negative {
        p + 1
    } else {
        p
    };
    let count = run(s, first, class) as int;
    let end = first + count;
    lemma_run_end(s, first, class);
    if count > 0 {
        lemma_quotes_over(s, p, end);
    }
    if p >= g {
        if p < s.len() {
            assert(t[p + w.len()] == s[p]);
        }
        lemma_run_behind(s, g, w, first, class);
        assert forall|i: int| 0 <= i < count implies #[trigger] t[first + w.len() + i] == s[first
            + i] by {}
        lemma_digits_same(t, first + w.len(), s, first, count);
    } else {
        assert(t[p] == s[p]);
        assert(clear_of(s, p, g));
        if end < g {
            lemma_run_before(s, g, w, first, class);
        } else {
            lemma_run_up_to(s, g, w, first, class);
        }
        assert forall|i: int| 0 <= i < count implies #[trigger] t[first + i] == s[first + i] by {}
        lemma_digits_same(t, first, s, first, count);
    }
}

/// A string that starts outside every other string is read after as
/// before.
#[verifier::rlimit(40)]
pub proof fn lemma_string_literal(s: Seq<char>, g: int, w: Seq<char>, p: int)
    requires
        spaced(s, g, w),
        0 <= p <= s.len(),
        outside_strings(s, p),
    ensures
        same_ended(
            g,
            w,
            grammar::string_literal(spread(s, g, w), moved(g, w, p)),
            grammar::string_literal(s, p),
        ),
        grammar::string_literal(s, p).is_match() ==> p < grammar::string_literal(s, p).next()
            <= s.len() && outside_strings(s, grammar::string_literal(s, p).next()),
{
    let t = spread(s, g, w);
    let class = CharClass::NotQuote;
    lemma_spread(s, g, w);
    if p < s.len() {
        lemma_run_end(s, p + 1, class);
        let close = p + 1 + run(s, p + 1, class);
        if s[p] == '"' && close < s.len() {
            lemma_quotes_over(s, p + 1, close);
            assert(quotes_before(s, close + 1) == quotes_before(s, p) + 2);
        }
        if p >= g {
            assert(t[p + w.len()] == s[p]);
            lemma_run_behind(s, g, w, p + 1, class);
            assert(t.subrange(p + 1 + w.len(), close + w.len()) =~= s.subrange(p + 1, close));
        } else {
            assert(t[p] == s[p]);
            if s[p] == '"' {
                assert(clear_of(s, p, g));
                if close < s.len() {
                    lemma_run_before(s, g, w, p + 1, class);
                    assert(t.subrange(p + 1, close) =~= s.subrange(p + 1, close));
                } else {
                    lemma_run_through(s, g, w, p + 1, class);
                }
            }
        }
    }
}

/// Whether a rule that ends with a token reads after what it read before,
/// and ends within the text and outside every string.
pub open spec fn agrees<T>(
    s: Seq<char>,
    g: int,
    w: Seq<char>,
    p: int,
    after: Outcome<T>,
    before: Outcome<T>,
) -> bool {
    &&& same_ended(g, w, after, before)
    &&& before.is_match() ==> p < before.next() <= s.len() && outside_strings(s, before.next())
}

/// Whether a rule that ends before the next token reads after what it
/// read before, and ends within the text, outside every string and where
/// a token can start.
pub open spec fn agrees_moved<T>(
    s: Seq<char>,
    g: int,
    w: Seq<char>,
    p: int,
    after: Outcome<T>,
    before: Outcome<T>,
) -> bool {
    &&& same_moved(g, w, after, before)
    &&& before.is_match() ==> p <= before.next() <= s.len() && outside_strings(s, before.next())
        && at_token(s, before.next())
}

/// `true` and `false` are read after as before.
pub proof fn lemma_raw_boolean(s: Seq<char>, g: int, w: Seq<char>, p: int)
    requires
        spaced(s, g, w),
        0 <= p <= s.len(),
        outside_strings(s, p),
    ensures
        agrees(
            s,
            g,
            w,
            p,
            grammar::raw_boolean(spread(s, g, w), moved(g, w, p)),
            grammar::raw_boolean(s, p),
        ),
{
    lemma_literal(s, g, w, p, Token::True);
    lemma_literal(s, g, w, p, Token::False);
}

/// The name of a sort is read after as before.
pub proof fn lemma_sort_name(s: Seq<char>, g: int, w: Seq<char>, p: int)
    requires
        spaced(s, g, w),
        0 <= p <= s.len(),
        outside_strings(s, p),
    ensures
        agrees(
            s,
            g,
            w,
            p,
            grammar::sort_name(spread(s, g, w), moved(g, w, p)),
            grammar::sort_name(s, p),
        ),
{
    lemma_literal(s, g, w, p, Token::BoolSort);
    lemma_literal(s, g, w, p, Token::IntSort);
    lemma_literal(s, g, w, p, Token::StringSort);
    lemma_literal(s, g, w, p, Token::CharSort);
}

/// The start of a bracketed form is read after as before.
pub proof fn lemma_opening(s: Seq<char>, g: int, w: Seq<char>, p: int, head: Token)
    requires
        spaced(s, g, w),
        0 <= p <= s.len(),
        outside_strings(s, p),
        head.spelling().len() > 0,
    ensures
        agrees_moved(
            s,
            g,
            w,
            p,
            grammar::opening(spread(s, g, w), moved(g, w, p), head),
            grammar::opening(s, p, head),
        ),
        grammar::opening(s, p, head).is_match() ==> p < grammar::opening(s, p, head).next(),
{
    lemma_literal(s, g, w, p, Token::OpenParen);
    let open = grammar::literal(s, p, Token::OpenParen);
    if open.is_match() {
        lemma_skip(s, g, w, open.next());
        let at = skip_whitespace(s, open.next());
        lemma_literal(s, g, w, at, head);
        let word = grammar::literal(s, at, head);
        if word.is_match() {
            lemma_skip(s, g, w, word.next());
        }
    }
}

/// The end of a bracketed form behind a token is read after as before.
pub proof fn lemma_closing(s: Seq<char>, g: int, w: Seq<char>, q: int)
    requires
        spaced(s, g, w),
        0 <= q <= s.len(),
        outside_strings(s, q),
    ensures
        agrees(
            s,
            g,
            w,
            q,
            grammar::closing(spread(s, g, w), ended(g, w, q)),
            grammar::closing(s, q),
        ),
{
    lemma_skip(s, g, w, q);
    lemma_literal(s, g, w, skip_whitespace(s, q), Token::CloseParen);
}

/// The end of a bracketed form behind a row is read after as before.
pub proof fn lemma_closing_at_token(s: Seq<char>, g: int, w: Seq<char>, q: int)
    requires
        spaced(s, g, w),
        at_token(s, q),
        outside_strings(s, q),
    ensures
        agrees(
            s,
            g,
            w,
            q,
            grammar::closing(spread(s, g, w), moved(g, w, q)),
            grammar::closing(s, q),
        ),
{
    lemma_skip_at_token(s, g, w, q);
    lemma_literal(s, g, w, q, Token::CloseParen);
}

/// An expression is read after as before.
#[verifier::rlimit(40)]
pub proof fn lemma_expression(s: Seq<char>, g: int, w: Seq<char>, p: int)
    requires
        spaced(s, g, w),
        0 <= p <= s.len(),
        outside_strings(s, p),
    ensures
        agrees(
            s,
            g,
            w,
            p,
            grammar::expression(spread(s, g, w), moved(g, w, p)),
            grammar::expression(s, p),
        ),
    decreases remaining(s, p), 2int,
{
    lemma_raw_integer(s, g, w, p);
    lemma_raw_boolean(s, g, w, p);
    lemma_string_literal(s, g, w, p);
    lemma_operator_form(s, g, w, p, Token::Equals);
    lemma_operator_form(s, g, w, p, Token::And);
    lemma_conditional(s, g, w, p);
    lemma_cast(s, g, w, p);
    lemma_parentheses(s, g, w, p);
    lemma_identifier(s, g, w, p);
    lemma_function_call(s, g, w, p);
}

/// A row of expressions is read after as before.
pub proof fn lemma_expressions(s: Seq<char>, g: int, w: Seq<char>, p: int, limit: Option<nat>)
    requires
        spaced(s, g, w),
        at_token(s, p),
        outside_strings(s, p),
    ensures
        agrees_moved(
            s,
            g,
            w,
            p,
            grammar::expressions(spread(s, g, w), moved(g, w, p), limit),
            grammar::expressions(s, p, limit),
        ),
        grammar::expressions(s, p, limit).is_match(),
    decreases remaining(s, p), 3int,
{
    if limit != Some(0nat) {
        lemma_expression(s, g, w, p);
        let first = grammar::expression(s, p);
        if first.is_match() {
            lemma_skip(s, g, w, first.next());
            lemma_expressions(
                s,
                g,
                w,
                skip_whitespace(s, first.next()),
                match limit {
                    Some(n) => Some((n - 1) as nat),
                    None => None,
                },
            );
        }
    }
}

/// An equality or a conjunction is read after as before.
pub proof fn lemma_operator_form(s: Seq<char>, g: int, w: Seq<char>, p: int, head: Token)
    requires
        spaced(s, g, w),
        0 <= p <= s.len(),
        outside_strings(s, p),
        head.spelling().len() > 0,
    ensures
        agrees(
            s,
            g,
            w,
            p,
            grammar::operator_form(spread(s, g, w), moved(g, w, p), head),
            grammar::operator_form(s, p, head),
        ),
    decreases remaining(s, p), 0int,
{
    lemma_opening(s, g, w, p, head);
    let start = grammar::opening(s, p, head);
    if start.is_match() {
        lemma_expressions(s, g, w, start.next(), None);
        let operands = grammar::expressions(s, start.next(), None);
        lemma_closing_at_token(s, g, w, operands.next());
    }
}

/// A conditional is read after as before.
pub proof fn lemma_conditional(s: Seq<char>, g: int, w: Seq<char>, p: int)
    requires
        spaced(s, g, w),
        0 <= p <= s.len(),
        outside_strings(s, p),
    ensures
        agrees(
            s,
            g,
            w,
            p,
            grammar::conditional(spread(s, g, w), moved(g, w, p)),
            grammar::conditional(s, p),
        ),
    decreases remaining(s, p), 1int,
{
    lemma_opening(s, g, w, p, Token::Ite);
    let start = grammar::opening(s, p, Token::Ite);
    if start.is_match() {
        lemma_expressions(s, g, w, start.next(), Some(3nat));
        let parts = grammar::expressions(s, start.next(), Some(3nat));
        lemma_closing_at_token(s, g, w, parts.next());
    }
}

/// A cast is read after as before.
#[verifier::rlimit(40)]
pub proof fn lemma_cast(s: Seq<char>, g: int, w: Seq<char>, p: int)
    requires
        spaced(s, g, w),
        0 <= p <= s.len(),
        outside_strings(s, p),
    ensures
        agrees(
            s,
            g,
            w,
            p,
            grammar::cast(spread(s, g, w), moved(g, w, p)),
            grammar::cast(s, p),
        ),
{
    reveal(grammar::cast);
    lemma_opening(s, g, w, p, Token::Underscore);
    let start = grammar::opening(s, p, Token::Underscore);
    if start.is_match() {
        lemma_sort_name(s, g, w, start.next());
        let target = grammar::sort_name(s, start.next());
        if target.is_match() {
            lemma_skip(s, g, w, target.next());
            lemma_raw_integer(s, g, w, skip_whitespace(s, target.next()));
            let raw = grammar::raw_integer(s, skip_whitespace(s, target.next()));
            if raw.is_match() {
                lemma_closing(s, g, w, raw.next());
            }
        }
    }
}

/// An expression in brackets is read after as before.
pub proof fn lemma_parentheses(s: Seq<char>, g: int, w: Seq<char>, p: int)
    requires
        spaced(s, g, w),
        0 <= p <= s.len(),
        outside_strings(s, p),
    ensures
        agrees(
            s,
            g,
            w,
            p,
            grammar::parentheses(spread(s, g, w), moved(g, w, p)),
            grammar::parentheses(s, p),
        ),
    decreases remaining(s, p), 1int,
{
    lemma_literal(s, g, w, p, Token::OpenParen);
    let open = grammar::literal(s, p, Token::OpenParen);
    if open.is_match() {
        lemma_skip(s, g, w, open.next());
        lemma_expression(s, g, w, skip_whitespace(s, open.next()));
        let inner = grammar::expression(s, skip_whitespace(s, open.next()));
        if inner.is_match() {
            lemma_closing(s, g, w, inner.next());
        }
    }
}

/// A function call is read after as before.
pub proof fn lemma_function_call(s: Seq<char>, g: int, w: Seq<char>, p: int)
    requires
        spaced(s, g, w),
        0 <= p <= s.len(),
        outside_strings(s, p),
    ensures
        agrees(
            s,
            g,
            w,
            p,
            grammar::function_call(spread(s, g, w), moved(g, w, p)),
            grammar::function_call(s, p),
        ),
    decreases remaining(s, p), 1int,
{
    lemma_literal(s, g, w, p, Token::OpenParen);
    let open = grammar::literal(s, p, Token::OpenParen);
    if open.is_match() {
        lemma_skip(s, g, w, open.next());
        lemma_identifier(s, g, w, skip_whitespace(s, open.next()));
        let name = grammar::identifier(s, skip_whitespace(s, open.next()));
        if name.is_match() {
            lemma_skip(s, g, w, name.next());
            lemma_expressions(s, g, w, skip_whitespace(s, name.next()), None);
            let arguments = grammar::expressions(s, skip_whitespace(s, name.next()), None);
            lemma_closing_at_token(s, g, w, arguments.next());
        }
    }
}

/// A parameter is read after as before.
pub proof fn lemma_parameter(s: Seq<char>, g: int, w: Seq<char>, p: int)
    requires
        spaced(s, g, w),
        0 <= p <= s.len(),
        outside_strings(s, p),
    ensures
        agrees(
            s,
            g,
            w,
            p,
            grammar::parameter(spread(s, g, w), moved(g, w, p)),
            grammar::parameter(s, p),
        ),
{
    lemma_literal(s, g, w, p, Token::OpenParen);
    let open = grammar::literal(s, p, Token::OpenParen);
    if open.is_match() {
        lemma_skip(s, g, w, open.next());
        lemma_identifier(s, g, w, skip_whitespace(s, open.next()));
        let name = grammar::identifier(s, skip_whitespace(s, open.next()));
        if name.is_match() {
            lemma_skip(s, g, w, name.next());
            lemma_sort_name(s, g, w, skip_whitespace(s, name.next()));
            let sort = grammar::sort_name(s, skip_whitespace(s, name.next()));
            if sort.is_match() {
                lemma_closing(s, g, w, sort.next());
            }
        }
    }
}

/// A row of parameters is read after as before.
pub proof fn lemma_parameters(s: Seq<char>, g: int, w: Seq<char>, p: int)
    requires
        spaced(s, g, w),
        at_token(s, p),
        outside_strings(s, p),
    ensures
        agrees_moved(
            s,
            g,
            w,
            p,
            grammar::parameters(spread(s, g, w), moved(g, w, p)),
            grammar::parameters(s, p),
        ),
        grammar::parameters(s, p).is_match(),
    decreases remaining(s, p),
{
    lemma_parameter(s, g, w, p);
    let first = grammar::parameter(s, p);
    if first.is_match() {
        lemma_skip(s, g, w, first.next());
        lemma_parameters(s, g, w, skip_whitespace(s, first.next()));
    }
}

/// The head of a function is read after as before.
#[verifier::rlimit(40)]
pub proof fn lemma_function_head(s: Seq<char>, g: int, w: Seq<char>, p: int)
    requires
        spaced(s, g, w),
        0 <= p <= s.len(),
        outside_strings(s, p),
    ensures
        agrees(
            s,
            g,
            w,
            p,
            grammar::function_head(spread(s, g, w), moved(g, w, p)),
            grammar::function_head(s, p),
        ),
{
    reveal(grammar::function_head);
    lemma_opening(s, g, w, p, Token::DefineFun);
    let start = grammar::opening(s, p, Token::DefineFun);
    if start.is_match() {
        lemma_identifier(s, g, w, start.next());
        let name = grammar::identifier(s, start.next());
        if name.is_match() {
            lemma_skip(s, g, w, name.next());
            let at = skip_whitespace(s, name.next());
            lemma_literal(s, g, w, at, Token::OpenParen);
            let open = grammar::literal(s, at, Token::OpenParen);
            if open.is_match() {
                lemma_skip(s, g, w, open.next());
                lemma_parameters(s, g, w, skip_whitespace(s, open.next()));
                let params = grammar::parameters(s, skip_whitespace(s, open.next()));
                lemma_closing_at_token(s, g, w, params.next());
            }
        }
    }
}

/// A function is read after as before.
#[verifier::rlimit(40)]
pub proof fn lemma_function(s: Seq<char>, g: int, w: Seq<char>, p: int)
    requires
        spaced(s, g, w),
        0 <= p <= s.len(),
        outside_strings(s, p),
    ensures
        agrees(
            s,
            g,
            w,
            p,
            grammar::function(spread(s, g, w), moved(g, w, p)),
            grammar::function(s, p),
        ),
{
    lemma_function_head(s, g, w, p);
    let head = grammar::function_head(s, p);
    if head.is_match() {
        lemma_skip(s, g, w, head.next());
        lemma_sort_name(s, g, w, skip_whitespace(s, head.next()));
        let sort = grammar::sort_name(s, skip_whitespace(s, head.next()));
        if sort.is_match() {
            lemma_skip(s, g, w, sort.next());
            lemma_expression(s, g, w, skip_whitespace(s, sort.next()));
            let body = grammar::expression(s, skip_whitespace(s, sort.next()));
            if body.is_match() {
                lemma_closing(s, g, w, body.next());
            }
        }
    }
}

/// A row of functions is read after as before.
pub proof fn lemma_functions(s: Seq<char>, g: int, w: Seq<char>, p: int)
    requires
        spaced(s, g, w),
        at_token(s, p),
        outside_strings(s, p),
    ensures
        agrees_moved(
            s,
            g,
            w,
            p,
            grammar::functions(spread(s, g, w), moved(g, w, p)),
            grammar::functions(s, p),
        ),
        grammar::functions(s, p).is_match(),
    decreases remaining(s, p),
{
    lemma_function(s, g, w, p);
    let first = grammar::function(s, p);
    if first.is_match() {
        lemma_skip(s, g, w, first.next());
        lemma_functions(s, g, w, skip_whitespace(s, first.next()));
    }
}

/// A model is read after as before.
#[verifier::rlimit(40)]
pub proof fn lemma_model(s: Seq<char>, g: int, w: Seq<char>)
    requires
        spaced(s, g, w),
    ensures
        agrees_moved(
            s,
            g,
            w,
            0,
            grammar::model(spread(s, g, w), 0),
            grammar::model(s, 0),
        ),
{
    lemma_literal(s, g, w, 0, Token::Sat);
    let verdict = grammar::literal(s, 0, Token::Sat);
    if verdict.is_match() {
        lemma_skip(s, g, w, verdict.next());
        let at = skip_whitespace(s, verdict.next());
        lemma_literal(s, g, w, at, Token::OpenParen);
        let open = grammar::literal(s, at, Token::OpenParen);
        if open.is_match() {
            lemma_skip(s, g, w, open.next());
            lemma_functions(s, g, w, skip_whitespace(s, open.next()));
            let list = grammar::functions(s, skip_whitespace(s, open.next()));
            lemma_closing_at_token(s, g, w, list.next());
            let end = grammar::closing(s, list.next());
            if end.is_match() {
                lemma_skip(s, g, w, end.next());
            }
        }
    }
}

/// Whitespace put between two tokens of a text does not change what the
/// text is read as: a model stays the model it was, with the same
/// functions, and a text that is no model stays none.
///
/// The whitespace may be any run of spaces, tabs, carriage returns and
/// line feeds. The position must lie between tokens as
/// [`between_tokens`] says: behind the start of the text, and not inside
/// a literal, an identifier, a number or a string.
pub proof fn law_whitespace_between_tokens(s: Seq<char>, g: int, w: Seq<char>)
    requires
        is_blank(w),
        between_tokens(s, g),
    ensures
        match grammar::parse(s) {
            Ok(functions) => grammar::parse(spread(s, g, w)) == Ok::<
                Seq<FunctionView>,
                super::token::FailureRecord,
            >(functions),
            Err(_) => grammar::parse(spread(s, g, w)) is Err,
        },
{
    if w.len() == 0 {
        assert(spread(s, g, w) =~= s);
    } else {
        lemma_model(s, g, w);
        lemma_spread(s, g, w);
    }
}

/// Where a token ends once the whitespace is put in, given where it
/// started and ended: a token that is none ends where it starts.
pub open spec fn end_after(g: int, w: Seq<char>, p: int, end: int) -> int {
    if end == p {
        moved(g, w, p)
    } else {
        ended(g, w, end)
    }
}

/// As many quotes stand before a position after as before.
pub proof fn lemma_quotes_after(s: Seq<char>, g: int, w: Seq<char>, k: int)
    requires
        0 <= g <= s.len(),
        is_blank(w),
        0 <= k <= s.len() + w.len(),
    ensures
        k <= g ==> quotes_before(spread(s, g, w), k) == quotes_before(s, k),
        g <= k <= g + w.len() ==> quotes_before(spread(s, g, w), k) == quotes_before(s, g),
        g + w.len() <= k ==> quotes_before(spread(s, g, w), k) == quotes_before(s, k - w.len()),
    decreases k,
{
    lemma_spread(s, g, w);
    if k > 0 {
        lemma_quotes_after(s, g, w, k - 1);
        if g < k <= g + w.len() {
            assert(spread(s, g, w)[k - 1] == w[k - 1 - g]);
            assert(CharClass::Whitespace.holds(w[k - 1 - g]));
        }
    }
}

/// The tokens that start at a position end after where they ended before.
#[verifier::rlimit(40)]
pub proof fn lemma_ends_after(s: Seq<char>, g: int, w: Seq<char>, p: int)
    requires
        spaced(s, g, w),
        0 <= p <= s.len(),
    ensures
        word_end(spread(s, g, w), moved(g, w, p)) == end_after(g, w, p, word_end(s, p)),
        number_end(spread(s, g, w), moved(g, w, p)) == end_after(g, w, p, number_end(s, p)),
        outside_strings(s, p) ==> string_end(spread(s, g, w), moved(g, w, p)) == end_after(
            g,
            w,
            p,
            string_end(s, p),
        ),
        forall|token: Token| #[trigger]
            literal_end(spread(s, g, w), moved(g, w, p), token) == end_after(
                g,
                w,
                p,
                literal_end(s, p, token),
            ),
        outside_strings(spread(s, g, w), moved(g, w, p)) == outside_strings(s, p),
{
    let t = spread(s, g, w);
    lemma_spread(s, g, w);
    lemma_identifier(s, g, w, p);
    if outside_strings(s, p) {
        lemma_string_literal(s, g, w, p);
    }
    lemma_quotes_after(s, g, w, moved(g, w, p));
    assert forall|token: Token| #[trigger]
        literal_end(t, moved(g, w, p), token) == end_after(
            g,
            w,
            p,
            literal_end(s, p, token),
        ) by {
        if token.spelling().len() > 0 {
            lemma_literal(s, g, w, p, token);
        }
    }
    let class = CharClass::Digit;
    let negative = p < s.len() && s[p] == '-';
    let first = if negative {
        p + 1
    } else {
        p
    };
    let end = first + run(s, first, class);
    lemma_run_end(s, first, class);
    if p >= g {
        if p < s.len() {
            assert(t[p + w.len()] == s[p]);
        }
        lemma_run_behind(s, g, w, first, class);
    } else {
        assert(t[p] == s[p]);
        assert(clear_of(s, p, g));
        if end < g {
            lemma_run_before(s, g, w, first, class);
        } else {
            lemma_run_up_to(s, g, w, first, class);
        }
    }
}

/// No token starts in the whitespace that was put in.
pub proof fn lemma_ends_in_blank(s: Seq<char>, g: int, w: Seq<char>, k: int)
    requires
        spaced(s, g, w),
        g <= k < g + w.len(),
    ensures
        word_end(spread(s, g, w), k) == k,
        number_end(spread(s, g, w), k) == k,
        string_end(spread(s, g, w), k) == k,
        forall|token: Token| #[trigger] literal_end(spread(s, g, w), k, token) == k,
{
    let t = spread(s, g, w);
    lemma_spread(s, g, w);
    assert(t[k] == w[k - g]);
    assert(CharClass::Whitespace.holds(w[k - g]));
    assert forall|token: Token| #[trigger] literal_end(t, k, token) == k by {
        if token.spelling().len() > 0 {
            lemma_spelling_plain(token);
            if starts_with(t, k, token.spelling()) {
                assert(t.subrange(k, k + token.spelling().len())[0] == token.spelling()[0]);
            }
        }
    }
}

/// Whitespace put between two tokens leaves every other place between
/// tokens where it was, and both its own ends lie between tokens: more
/// whitespace can be put in at any of them.
#[verifier::rlimit(40)]
pub proof fn law_tokens_stay_apart(s: Seq<char>, g: int, w: Seq<char>, h: int)
    requires
        is_blank(w),
        between_tokens(s, g),
        between_tokens(s, h),
    ensures
        between_tokens(spread(s, g, w), moved(g, w, h)),
        between_tokens(spread(s, g, w), ended(g, w, h)),
{
    let t = spread(s, g, w);
    if w.len() == 0 {
        assert(t =~= s);
    } else {
        lemma_spread(s, g, w);
        assert forall|k: int, q: int|
            (k == moved(g, w, h) || k == ended(g, w, h)) && 0 <= q < k implies #[trigger] clear_of(
            t,
            q,
            k,
        ) by {
            if g <= q < g + w.len() {
                lemma_ends_in_blank(s, g, w, q);
            } else {
                let p = if q < g {
                    q
                } else {
                    q - w.len()
                };
                assert(moved(g, w, p) == q);
                lemma_ends_after(s, g, w, p);
                assert(clear_of(s, p, h));
                if p < g {
                    assert(clear_of(s, p, g));
                }
                assert forall|token: Token| #[trigger] literal_end(t, q, token) <= k by {
                    assert(literal_end(s, p, token) <= h);
                    if p < g {
                        assert(literal_end(s, p, token) <= g);
                    }
                }
            }
        }
    }
}

/// Whether no token that starts at one position reaches beyond another,
/// computed. The caller says whether the position lies outside every
/// string.
fn is_clear_of(input: &Vec<char>, p: usize, g: usize, outside: bool) -> (clear: bool)
    requires
        p < g <= input.len(),
        outside == outside_strings(input@, p as int),
    ensures
        clear == clear_of(input@, p as int, g as int),
{
    let word = if letter(input[p]) {
        skip_run(input, p + 1, CharClass::IdentifierPart)
    } else {
        p
    };
    if word > g {
        return false;
    }
    let first = if input[p] == '-' {
        p + 1
    } else {
        p
    };
    let digits = skip_run(input, first, CharClass::Digit);
    if digits > first && digits > g {
        return false;
    }
    if outside && input[p] == '"' {
        let close = skip_run(input, p + 1, CharClass::NotQuote);
        if close < input.len() && close + 1 > g {
            return false;
        }
    }
    let mut index: u32 = 0;
    while index < 14
        invariant
            index <= 14,
            p < g <= input.len(),
            forall|token: Token|
                token.index() < index ==> #[trigger] literal_end(input@, p as int, token) <= g,
        decreases 14 - index,
    {
        let token = Token::from_position(index);
        let read = literal(input, p, token);
        if let Some((_, next)) = read.result {
            if next > g {
                assert(literal_end(input@, p as int, token) > g);
                return false;
            }
        }
        assert forall|other: Token| other.index() < index + 1 implies #[trigger] literal_end(
            input@,
            p as int,
            other,
        ) <= g by {
            if other.index() == index {
                assert(other == token);
            }
        }
        index += 1;
    }
    assert forall|token: Token| #[trigger] literal_end(input@, p as int, token) <= g by {
        if token.index() >= 14 {
            assert(token.spelling().len() == 0);
        }
    }
    true
}

/// Whether a position of a text lies between tokens, as
/// [`between_tokens`] says.
pub fn lies_between_tokens(text: &str, position: usize) -> (between: bool)
    ensures
        between == between_tokens(text@, position as int),
{
    let input = characters(text);
    if position == 0 || position > input.len() {
        return false;
    }
    let mut outside = true;
    let mut p: usize = 0;
    while p < position
        invariant
            p <= position <= input.len(),
            0 < position,
            input@ == text@,
            outside == outside_strings(input@, p as int),
            forall|q: int| 0 <= q < p ==> #[trigger] clear_of(input@, q, position as int),
        decreases position - p,
    {
        if !is_clear_of(&input, p, position, outside) {
            return false;
        }
        if input[p] == '"' {
            outside = !outside;
        }
        p += 1;
    }
    true
}

} // verus!
