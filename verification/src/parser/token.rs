//! The terminals of the grammar and the record of where a parse gave up.

use vstd::prelude::*;

verus! {

/// What the grammar can ask for at a position of the text.
///
/// The first fourteen are literals, matched letter for letter. The others
/// stand for a class of characters, for a named construct, for the range of
/// a 32-bit integer, and for the end of the text.
#[derive(Debug, Clone, Copy, PartialEq, Eq, Structural)]
pub enum Token {
    Sat,
    OpenParen,
    CloseParen,
    DefineFun,
    Equals,
    And,
    Ite,
    Underscore,
    True,
    False,
    BoolSort,
    IntSort,
    StringSort,
    CharSort,
    Minus,
    Digit,
    Identifier,
    StringLiteral,
    I32,
    EndOfInput,
}

impl Token {
    /// The place of the token in the declaration above.
    pub open spec fn index(self) -> u32 {
        match self {
            Token::Sat => 0,
            Token::OpenParen => 1,
            Token::CloseParen => 2,
            Token::DefineFun => 3,
            Token::Equals => 4,
            Token::And => 5,
            Token::Ite => 6,
            Token::Underscore => 7,
            Token::True => 8,
            Token::False => 9,
            Token::BoolSort => 10,
            Token::IntSort => 11,
            Token::StringSort => 12,
            Token::CharSort => 13,
            Token::Minus => 14,
            Token::Digit => 15,
            Token::Identifier => 16,
            Token::StringLiteral => 17,
            Token::I32 => 18,
            Token::EndOfInput => 19,
        }
    }

    /// The text of a literal token; empty for the six that are no literal.
    pub open spec fn spelling(self) -> Seq<char> {
        match self {
            Token::Sat => seq!['s', 'a', 't'],
            Token::OpenParen => seq!['('],
            Token::CloseParen => seq![')'],
            Token::DefineFun => seq!['d', 'e', 'f', 'i', 'n', 'e', '-', 'f', 'u', 'n'],
            Token::Equals => seq!['='],
            Token::And => seq!['a', 'n', 'd'],
            Token::Ite => seq!['i', 't', 'e'],
            Token::Underscore => seq!['_'],
            Token::True => seq!['t', 'r', 'u', 'e'],
            Token::False => seq!['f', 'a', 'l', 's', 'e'],
            Token::BoolSort => seq!['B', 'o', 'o', 'l'],
            Token::IntSort => seq!['I', 'n', 't'],
            Token::StringSort => seq!['S', 't', 'r', 'i', 'n', 'g'],
            Token::CharSort => seq!['C', 'h', 'a', 'r'],
            _ => Seq::empty(),
        }
    }

    /// The name under which a failure report lists the token.
    pub open spec fn description(self) -> Seq<char> {
        match self {
            Token::Sat => "\"sat\""@,
            Token::OpenParen => "\"(\""@,
            Token::CloseParen => "\")\""@,
            Token::DefineFun => "\"define-fun\""@,
            Token::Equals => "\"=\""@,
            Token::And => "\"and\""@,
            Token::Ite => "\"ite\""@,
            Token::Underscore => "\"_\""@,
            Token::True => "\"true\""@,
            Token::False => "\"false\""@,
            Token::BoolSort => "\"Bool\""@,
            Token::IntSort => "\"Int\""@,
            Token::StringSort => "\"String\""@,
            Token::CharSort => "\"Char\""@,
            Token::Minus => "['-']"@,
            Token::Digit => "['0'..='9']"@,
            Token::Identifier => "identifier"@,
            Token::StringLiteral => "string literal"@,
            Token::I32 => "i32"@,
            Token::EndOfInput => "EOF"@,
        }
    }

    /// The token at a place of the declaration.
    pub open spec fn at_index(index: u32) -> Token {
        if index == 0 {
            Token::Sat
        } else if index == 1 {
            Token::OpenParen
        } else if index == 2 {
            Token::CloseParen
        } else if index == 3 {
            Token::DefineFun
        } else if index == 4 {
            Token::Equals
        } else if index == 5 {
            Token::And
        } else if index == 6 {
            Token::Ite
        } else if index == 7 {
            Token::Underscore
        } else if index == 8 {
            Token::True
        } else if index == 9 {
            Token::False
        } else if index == 10 {
            Token::BoolSort
        } else if index == 11 {
            Token::IntSort
        } else if index == 12 {
            Token::StringSort
        } else if index == 13 {
            Token::CharSort
        } else if index == 14 {
            Token::Minus
        } else if index == 15 {
            Token::Digit
        } else if index == 16 {
            Token::Identifier
        } else if index == 17 {
            Token::StringLiteral
        } else if index == 18 {
            Token::I32
        } else {
            Token::EndOfInput
        }
    }

    /// The place of the token, computed.
    pub fn position(self) -> (index: u32)
        ensures
            index == self.index(),
            index < 20,
    {
        match self {
            Token::Sat => 0,
            Token::OpenParen => 1,
            Token::CloseParen => 2,
            Token::DefineFun => 3,
            Token::Equals => 4,
            Token::And => 5,
            Token::Ite => 6,
            Token::Underscore => 7,
            Token::True => 8,
            Token::False => 9,
            Token::BoolSort => 10,
            Token::IntSort => 11,
            Token::StringSort => 12,
            Token::CharSort => 13,
            Token::Minus => 14,
            Token::Digit => 15,
            Token::Identifier => 16,
            Token::StringLiteral => 17,
            Token::I32 => 18,
            Token::EndOfInput => 19,
        }
    }

    /// The token at a place below twenty.
    pub fn from_position(index: u32) -> (token: Token)
        requires
            index < 20,
        ensures
            token == Token::at_index(index),
            token.index() == index,
    {
        if index == 0 {
            Token::Sat
        } else if index == 1 {
            Token::OpenParen
        } else if index == 2 {
            Token::CloseParen
        } else if index == 3 {
            Token::DefineFun
        } else if index == 4 {
            Token::Equals
        } else if index == 5 {
            Token::And
        } else if index == 6 {
            Token::Ite
        } else if index == 7 {
            Token::Underscore
        } else if index == 8 {
            Token::True
        } else if index == 9 {
            Token::False
        } else if index == 10 {
            Token::BoolSort
        } else if index == 11 {
            Token::IntSort
        } else if index == 12 {
            Token::StringSort
        } else if index == 13 {
            Token::CharSort
        } else if index == 14 {
            Token::Minus
        } else if index == 15 {
            Token::Digit
        } else if index == 16 {
            Token::Identifier
        } else if index == 17 {
            Token::StringLiteral
        } else if index == 18 {
            Token::I32
        } else {
            Token::EndOfInput
        }
    }

    /// The text of the token, as [`Token::spelling`] gives it.
    pub fn text(self) -> (text: &'static str)
        ensures
            text@ == self.spelling(),
    {
        proof {
            reveal_strlit("sat");
            reveal_strlit("(");
            reveal_strlit(")");
            reveal_strlit("define-fun");
            reveal_strlit("=");
            reveal_strlit("and");
            reveal_strlit("ite");
            reveal_strlit("_");
            reveal_strlit("true");
            reveal_strlit("false");
            reveal_strlit("Bool");
            reveal_strlit("Int");
            reveal_strlit("String");
            reveal_strlit("Char");
            reveal_strlit("");
        }
        let text = match self {
            Token::Sat => "sat",
            Token::OpenParen => "(",
            Token::CloseParen => ")",
            Token::DefineFun => "define-fun",
            Token::Equals => "=",
            Token::And => "and",
            Token::Ite => "ite",
            Token::Underscore => "_",
            Token::True => "true",
            Token::False => "false",
            Token::BoolSort => "Bool",
            Token::IntSort => "Int",
            Token::StringSort => "String",
            Token::CharSort => "Char",
            _ => "",
        };
        assert(text@ =~= self.spelling());
        text
    }

    /// The name of the token, as [`Token::description`] gives it.
    pub fn name(self) -> (name: &'static str)
        ensures
            name@ == self.description(),
    {
        match self {
            Token::Sat => "\"sat\"",
            Token::OpenParen => "\"(\"",
            Token::CloseParen => "\")\"",
            Token::DefineFun => "\"define-fun\"",
            Token::Equals => "\"=\"",
            Token::And => "\"and\"",
            Token::Ite => "\"ite\"",
            Token::Underscore => "\"_\"",
            Token::True => "\"true\"",
            Token::False => "\"false\"",
            Token::BoolSort => "\"Bool\"",
            Token::IntSort => "\"Int\"",
            Token::StringSort => "\"String\"",
            Token::CharSort => "\"Char\"",
            Token::Minus => "['-']",
            Token::Digit => "['0'..='9']",
            Token::Identifier => "identifier",
            Token::StringLiteral => "string literal",
            Token::I32 => "i32",
            Token::EndOfInput => "EOF",
        }
    }
}

/// A set of tokens, one bit for each.
#[derive(Debug, Clone, Copy, PartialEq, Eq)]
pub struct ExpectedSet {
    bits: u32,
}

impl View for ExpectedSet {
    type V = Set<Token>;

    closed spec fn view(&self) -> Set<Token> {
        Set::new(|token: Token| self.bits & (1u32 << token.index()) != 0)
    }
}

proof fn lemma_bit_of_union(a: u32, b: u32, index: u32)
    requires
        index < 32,
    ensures
        ((a | b) & (1u32 << index) != 0) <==> (a & (1u32 << index) != 0) || (b & (1u32 << index)
            != 0),
{
    assert(((a | b) & (1u32 << index) != 0) <==> (a & (1u32 << index) != 0) || (b & (1u32
        << index) != 0)) by (bit_vector);
}

proof fn lemma_bit_of_single(chosen: u32, index: u32)
    requires
        chosen < 32,
        index < 32,
    ensures
        ((1u32 << chosen) & (1u32 << index) != 0) <==> chosen == index,
{
    assert(chosen < 32 && index < 32 ==> (((1u32 << chosen) & (1u32 << index) != 0) <==> chosen
        == index)) by (bit_vector);
}

proof fn lemma_bit_of_none(index: u32)
    ensures
        0u32 & (1u32 << index) == 0,
{
    assert(0u32 & (1u32 << index) == 0) by (bit_vector);
}

impl ExpectedSet {
    /// The set without a token.
    pub fn empty() -> (set: ExpectedSet)
        ensures
            set@ == Set::<Token>::empty(),
    {
        let set = ExpectedSet { bits: 0 };
        proof {
            assert forall|token: Token| !set@.contains(token) by {
                lemma_bit_of_none(token.index());
            }
            assert(set@ =~= Set::<Token>::empty());
        }
        set
    }

    /// The set of one token.
    pub fn only(token: Token) -> (set: ExpectedSet)
        ensures
            set@ == Set::<Token>::empty().insert(token),
    {
        let index = token.position();
        let set = ExpectedSet { bits: 1u32 << index };
        proof {
            assert forall|other: Token| set@.contains(other) <==> other == token by {
                lemma_bit_of_single(index, other.index());
            }
            assert(set@ =~= Set::<Token>::empty().insert(token));
        }
        set
    }

    /// The tokens of either set.
    pub fn union(self, other: ExpectedSet) -> (set: ExpectedSet)
        ensures
            set@ == self@.union(other@),
    {
        let set = ExpectedSet { bits: self.bits | other.bits };
        proof {
            assert forall|token: Token|
                set@.contains(token) <==> self@.contains(token) || other@.contains(token) by {
                lemma_bit_of_union(self.bits, other.bits, token.index());
            }
            assert(set@ =~= self@.union(other@));
        }
        set
    }

    /// Whether the token is in the set.
    pub fn contains(&self, token: Token) -> (found: bool)
        ensures
            found == self@.contains(token),
    {
        let index = token.position();
        self.bits & (1u32 << index) != 0
    }

    /// The tokens of the set, in the order of their declaration.
    pub fn tokens(&self) -> (list: Vec<Token>)
        ensures
            list@.to_set() == self@,
            list@.no_duplicates(),
            forall|i: int, j: int|
                0 <= i < j < list@.len() ==> list@[i].index() < list@[j].index(),
    {
        let mut list: Vec<Token> = Vec::new();
        let mut index: u32 = 0;
        while index < 20
            invariant
                index <= 20,
                forall|i: int| 0 <= i < list@.len() ==> self@.contains(#[trigger] list@[i]),
                forall|i: int| 0 <= i < list@.len() ==> (#[trigger] list@[i]).index() < index,
                forall|i: int, j: int|
                    0 <= i < j < list@.len() ==> list@[i].index() < list@[j].index(),
                forall|token: Token|
                    self@.contains(token) && token.index() < index ==> list@.contains(token),
            decreases 20 - index,
        {
            let token = Token::from_position(index);
            if self.contains(token) {
                let ghost before = list@;
                list.push(token);
                assert forall|other: Token|
                    self@.contains(other) && other.index() < index + 1 implies list@.contains(
                    other,
                ) by {
                    if other.index() < index {
                        let at = choose|i: int| 0 <= i < before.len() && before[i] == other;
                        assert(list@[at] == other);
                    } else {
                        assert(other == token);
                        assert(list@[before.len() as int] == other);
                    }
                }
            }
            index += 1;
        }
        proof {
            assert(list@.to_set() =~= self@);
        }
        list
    }
}

/// The farthest position at which a parse asked for a token that was not
/// there, with the tokens it asked for at that position.
#[derive(Debug, Clone, Copy, PartialEq, Eq)]
pub struct Failure {
    pub position: usize,
    pub expected: ExpectedSet,
}

/// The value of a [`Failure`].
pub ghost struct FailureRecord {
    pub position: int,
    pub expected: Set<Token>,
}

impl FailureRecord {
    /// No token was missed.
    pub open spec fn none() -> FailureRecord {
        FailureRecord { position: 0, expected: Set::empty() }
    }

    /// One token was missed at one position.
    pub open spec fn at(position: int, token: Token) -> FailureRecord {
        FailureRecord { position, expected: Set::empty().insert(token) }
    }

    /// Both records in one: the farther position wins, and at the same
    /// position the tokens of both count.
    pub open spec fn join(self, other: FailureRecord) -> FailureRecord {
        if self.position > other.position {
            self
        } else if other.position > self.position {
            other
        } else {
            FailureRecord { position: self.position, expected: self.expected.union(other.expected) }
        }
    }
}

/// Joining records does not depend on how they are grouped.
pub proof fn lemma_join_associative(a: FailureRecord, b: FailureRecord, c: FailureRecord)
    ensures
        a.join(b).join(c) == a.join(b.join(c)),
{
    assert(a.join(b).join(c).expected =~= a.join(b.join(c)).expected);
}

/// Joining the empty record to one that starts in the text changes nothing.
pub proof fn lemma_join_none(a: FailureRecord)
    requires
        a.position >= 0,
    ensures
        a.join(FailureRecord::none()) == a,
        FailureRecord::none().join(a) == a,
{
    assert(a.join(FailureRecord::none()).expected =~= a.expected);
    assert(FailureRecord::none().join(a).expected =~= a.expected);
}

impl View for Failure {
    type V = FailureRecord;

    open spec fn view(&self) -> FailureRecord {
        FailureRecord { position: self.position as int, expected: self.expected@ }
    }
}

impl Failure {
    /// The record of a parse that missed nothing.
    pub fn none() -> (failure: Failure)
        ensures
            failure@ == FailureRecord::none(),
    {
        Failure { position: 0, expected: ExpectedSet::empty() }
    }

    /// The record of one missed token.
    pub fn at(position: usize, token: Token) -> (failure: Failure)
        ensures
            failure@ == FailureRecord::at(position as int, token),
    {
        Failure { position, expected: ExpectedSet::only(token) }
    }

    /// The two records in one.
    pub fn join(self, other: Failure) -> (failure: Failure)
        ensures
            failure@ == self@.join(other@),
    {
        if self.position > other.position {
            self
        } else if other.position > self.position {
            other
        } else {
            Failure { position: self.position, expected: self.expected.union(other.expected) }
        }
    }
}

} // verus!
