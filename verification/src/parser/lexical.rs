//! The readers of the grammar's smallest rules.

use super::grammar;
use super::grammar::{CharClass, Outcome};
use super::laws::lemma_run_end;
use super::smt_type::SmtType;
use super::token::{Failure, Token};
use crate::text::text_between;
use vstd::prelude::*;
use vstd::string::StrSliceExecFns;

verus! {

/// What a reader made of the text at a position: as [`Outcome`], computed.
pub struct Parsed<T> {
    pub result: Option<(T, usize)>,
    pub failure: Failure,
}

impl<T: DeepView> Parsed<T> {
    /// The value of what was read.
    pub open spec fn outcome(self) -> Outcome<T::V> {
        Outcome {
            result: match self.result {
                Some((value, next)) => Some((value.deep_view(), next as int)),
                None => None,
            },
            failure: self.failure@,
        }
    }

    /// A match that missed nothing on the way.
    pub fn matched(value: T, next: usize) -> (r: Parsed<T>)
        ensures
            r.outcome() == Outcome::matched(value.deep_view(), next as int),
            r.result == Some((value, next)),
    {
        Parsed { result: Some((value, next)), failure: Failure::none() }
    }

    /// No match.
    pub fn failed(failure: Failure) -> (r: Parsed<T>)
        ensures
            r.outcome() == Outcome::<T::V>::failed(failure@),
            r.result is None,
            r.failure == failure,
    {
        Parsed { result: None, failure }
    }

    /// The same result, with what was missed before it added to its record.
    pub fn noting(self, earlier: Failure) -> (r: Parsed<T>)
        ensures
            r.outcome() == self.outcome().noting(earlier@),
            r.result == self.result,
    {
        Parsed { result: self.result, failure: earlier.join(self.failure) }
    }
}

impl CharClass {
    /// Whether a character is of the class.
    pub fn has(self, c: char) -> (held: bool)
        ensures
            held == self.holds(c),
    {
        match self {
            CharClass::Whitespace => c == ' ' || c == '\t' || c == '\r' || c == '\n',
            CharClass::Digit => '0' <= c && c <= '9',
            CharClass::IdentifierPart => ('a' <= c && c <= 'z') || ('A' <= c && c <= 'Z') || ('0'
                <= c && c <= '9') || c == '_' || c == '!' || c == '.',
            CharClass::NotQuote => c != '"',
        }
    }
}

/// The position behind the run of a class that starts at a position.
pub fn skip_run(input: &Vec<char>, pos: usize, class: CharClass) -> (end: usize)
    requires
        pos <= input.len(),
    ensures
        end == pos + grammar::run(input@, pos as int, class),
        end <= input.len(),
{
    let mut end = pos;
    while end < input.len() && class.has(input[end])
        invariant
            pos <= end <= input.len(),
            grammar::run(input@, pos as int, class) == (end - pos) + grammar::run(
                input@,
                end as int,
                class,
            ),
        decreases input.len() - end,
    {
        end += 1;
    }
    end
}

/// The position behind the whitespace that starts at a position.
pub fn skip_whitespace(input: &Vec<char>, pos: usize) -> (end: usize)
    requires
        pos <= input.len(),
    ensures
        end == grammar::skip_whitespace(input@, pos as int),
        pos <= end <= input.len(),
{
    skip_run(input, pos, CharClass::Whitespace)
}

/// Reads a literal token.
pub fn literal(input: &Vec<char>, pos: usize, token: Token) -> (r: Parsed<()>)
    requires
        pos <= input.len(),
    ensures
        r.outcome() == grammar::literal(input@, pos as int, token),
        r.result matches Some((_, next)) ==> pos <= next <= input.len() && next == pos
            + token.spelling().len(),
{
    let text = token.text();
    let n = text.unicode_len();
    if n > input.len() - pos {
        return Parsed::failed(Failure::at(pos, token));
    }
    let mut i: usize = 0;
    while i < n
        invariant
            i <= n,
            n == text@.len(),
            text@ == token.spelling(),
            pos + n <= input.len(),
            forall|j: int| 0 <= j < i ==> input@[pos + j] == text@[j],
        decreases n - i,
    {
        if input[pos + i] != text.get_char(i) {
            proof {
                let found = input@.subrange(pos as int, pos + token.spelling().len());
                assert(found[i as int] == input@[pos + i]);
                assert(found != token.spelling());
            }
            return Parsed::failed(Failure::at(pos, token));
        }
        i += 1;
    }
    assert(input@.subrange(pos as int, pos + n) =~= text@);
    Parsed::matched((), pos + n)
}

/// Digits written behind a number do not make it smaller.
proof fn lemma_digits_value_grows(s: Seq<char>, from: int, to: int)
    requires
        from <= to,
        forall|i: int| from <= i < to + 1 ==> grammar::is_digit(#[trigger] s[i]),
    ensures
        grammar::digits_value(s, from, to + 1) == 10 * grammar::digits_value(s, from, to) + (s[to]
            as int - '0' as int),
        grammar::digits_value(s, from, to + 1) >= grammar::digits_value(s, from, to),
{
}

/// Reads an integer that fits in 32 bits.
pub fn raw_integer(input: &Vec<char>, pos: usize) -> (r: Parsed<i32>)
    requires
        pos <= input.len(),
    ensures
        r.outcome() == grammar::raw_integer(input@, pos as int),
        r.result matches Some((_, next)) ==> pos < next <= input.len(),
{
    reveal(grammar::raw_integer);
    let negative = pos < input.len() && input[pos] == '-';
    let first = if negative {
        pos + 1
    } else {
        pos
    };
    let end = skip_run(input, first, CharClass::Digit);
    let sign = if negative {
        Failure::none()
    } else {
        Failure::at(pos, Token::Minus)
    };
    let failure = sign.join(Failure::at(end, Token::Digit));
    if end == first {
        return Parsed::failed(failure);
    }
    let limit: i64 = 2147483648;
    let mut magnitude: i64 = 0;
    let mut too_large = false;
    let mut i: usize = first;
    while i < end
        invariant
            first <= i <= end <= input.len(),
            end == first + grammar::run(input@, first as int, CharClass::Digit),
            limit == 2147483648,
            !too_large ==> magnitude == grammar::digits_value(input@, first as int, i as int)
                && magnitude <= limit,
            too_large ==> grammar::digits_value(input@, first as int, i as int) > limit,
        decreases end - i,
    {
        proof {
            lemma_run_end(input@, first as int, CharClass::Digit);
            lemma_digits_value_grows(input@, first as int, i as int);
        }
        if !too_large {
            let digit: i64 = (input[i] as u32 - '0' as u32) as i64;
            magnitude = magnitude * 10 + digit;
            if magnitude > limit {
                too_large = true;
            }
        }
        i += 1;
    }
    if too_large || (!negative && magnitude == limit) {
        Parsed::failed(failure.join(Failure::at(end, Token::I32)))
    } else {
        let value: i32 = if negative {
            (0 - magnitude) as i32
        } else {
            magnitude as i32
        };
        Parsed { result: Some((value, end)), failure }
    }
}

/// Reads `true` or `false`.
pub fn raw_boolean(input: &Vec<char>, pos: usize) -> (r: Parsed<bool>)
    requires
        pos <= input.len(),
    ensures
        r.outcome() == grammar::raw_boolean(input@, pos as int),
        r.result matches Some((_, next)) ==> pos < next <= input.len(),
{
    let yes = literal(input, pos, Token::True);
    if let Some((_, next)) = yes.result {
        return Parsed { result: Some((true, next)), failure: yes.failure };
    }
    let no = literal(input, pos, Token::False).noting(yes.failure);
    if let Some((_, next)) = no.result {
        return Parsed { result: Some((false, next)), failure: no.failure };
    }
    Parsed::failed(no.failure)
}

/// Reads a string between double quotes.
pub fn string_literal(input: &Vec<char>, pos: usize) -> (r: Parsed<String>)
    requires
        pos <= input.len(),
    ensures
        r.outcome() == grammar::string_literal(input@, pos as int),
        r.result matches Some((_, next)) ==> pos < next <= input.len(),
{
    if pos < input.len() && input[pos] == '"' {
        let close = skip_run(input, pos + 1, CharClass::NotQuote);
        if close < input.len() {
            let text = text_between(input, pos + 1, close);
            return Parsed::matched(text, close + 1);
        }
    }
    Parsed::failed(Failure::at(pos, Token::StringLiteral))
}

/// Reads an identifier.
pub fn identifier(input: &Vec<char>, pos: usize) -> (r: Parsed<String>)
    requires
        pos <= input.len(),
    ensures
        r.outcome() == grammar::identifier(input@, pos as int),
        r.result matches Some((_, next)) ==> pos < next <= input.len(),
{
    if pos < input.len() && is_letter(input[pos]) {
        let end = skip_run(input, pos + 1, CharClass::IdentifierPart);
        let name = text_between(input, pos, end);
        Parsed::matched(name, end)
    } else {
        Parsed::failed(Failure::at(pos, Token::Identifier))
    }
}

/// Whether a character is a letter of the Latin alphabet.
pub fn is_letter(c: char) -> (letter: bool)
    ensures
        letter == grammar::is_letter(c),
{
    ('a' <= c && c <= 'z') || ('A' <= c && c <= 'Z')
}

/// Reads the name of a sort.
pub fn sort_name(input: &Vec<char>, pos: usize) -> (r: Parsed<SmtType>)
    requires
        pos <= input.len(),
    ensures
        r.outcome() == grammar::sort_name(input@, pos as int),
        r.result matches Some((_, next)) ==> pos < next <= input.len(),
{
    let b = literal(input, pos, Token::BoolSort);
    if let Some((_, next)) = b.result {
        return Parsed { result: Some((SmtType::Bool, next)), failure: b.failure };
    }
    let i = literal(input, pos, Token::IntSort).noting(b.failure);
    if let Some((_, next)) = i.result {
        return Parsed { result: Some((SmtType::Int, next)), failure: i.failure };
    }
    let t = literal(input, pos, Token::StringSort).noting(i.failure);
    if let Some((_, next)) = t.result {
        return Parsed { result: Some((SmtType::String, next)), failure: t.failure };
    }
    let c = literal(input, pos, Token::CharSort).noting(t.failure);
    if let Some((_, next)) = c.result {
        return Parsed { result: Some((SmtType::Char, next)), failure: c.failure };
    }
    Parsed::failed(c.failure)
}

/// Reads `(`, whitespace, a head literal and whitespace.
pub fn opening(input: &Vec<char>, pos: usize, head: Token) -> (r: Parsed<()>)
    requires
        pos <= input.len(),
    ensures
        r.outcome() == grammar::opening(input@, pos as int, head),
        r.result matches Some((_, next)) ==> pos < next <= input.len(),
{
    let open = literal(input, pos, Token::OpenParen);
    match open.result {
        None => open,
        Some((_, next)) => {
            let word = literal(input, skip_whitespace(input, next), head);
            match word.result {
                None => word,
                Some((_, behind)) => Parsed::matched((), skip_whitespace(input, behind)),
            }
        },
    }
}

/// Reads whitespace and `)`.
pub fn closing(input: &Vec<char>, pos: usize) -> (r: Parsed<()>)
    requires
        pos <= input.len(),
    ensures
        r.outcome() == grammar::closing(input@, pos as int),
        r.result matches Some((_, next)) ==> pos < next <= input.len(),
{
    literal(input, skip_whitespace(input, pos), Token::CloseParen)
}

} // verus!
