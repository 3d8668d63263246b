use smt_automaton::parser::smt_parser::{locate, model, ParseError};
use smt_automaton::parser::token::Token;
use smt_automaton::parser::{Expression, Function, SmtType};

fn ident(name: &str) -> Expression {
    Expression::Identifier(name.to_string())
}

fn body_of(text: &str) -> Expression {
    let mut functions = model(text).expect("the text is a model");
    assert_eq!(functions.len(), 1);
    *functions.remove(0).body
}

fn wrap(expression: &str) -> String {
    format!("sat ((define-fun A () Int {}))", expression)
}

fn refusal(text: &str) -> ParseError {
    model(text).expect_err("the text is no model")
}

#[test]
fn literal_example_parses_to_one_function_named_a() {
    let functions =
        model("sat ((define-fun A () Int (ite (and (= x 0) (= y 1) (= z (f (_ Char 97)))) 0 5)))")
            .unwrap();
    let expected = Function {
        name: "A".to_string(),
        params: vec![],
        return_type: SmtType::Int,
        body: Box::new(Expression::Ite(
            Box::new(Expression::And(vec![
                Expression::Eq(vec![ident("x"), Expression::Integer(0)]),
                Expression::Eq(vec![ident("y"), Expression::Integer(1)]),
                Expression::Eq(vec![
                    ident("z"),
                    Expression::FunctionCall(
                        "f".to_string(),
                        vec![Expression::Cast(SmtType::Char, 97)],
                    ),
                ]),
            ])),
            Box::new(Expression::Integer(0)),
            Box::new(Expression::Integer(5)),
        )),
    };
    assert_eq!(functions, vec![expected]);
}

#[test]
fn empty_model_has_no_function() {
    assert_eq!(model("sat ()").unwrap(), vec![]);
    assert_eq!(model("sat()").unwrap(), vec![]);
    assert_eq!(model("sat\n(\t)\r\n").unwrap(), vec![]);
}

#[test]
fn functions_come_in_the_order_of_the_text() {
    let functions = model(
        "sat ((define-fun second ((a Int) (b!1 String)) Bool true) (define-fun first () Char \"x\"))",
    )
    .unwrap();
    assert_eq!(functions.len(), 2);
    assert_eq!(functions[0].name, "second");
    assert_eq!(
        functions[0].params,
        vec![("a".to_string(), SmtType::Int), ("b!1".to_string(), SmtType::String)]
    );
    assert_eq!(functions[0].return_type, SmtType::Bool);
    assert_eq!(*functions[0].body, Expression::Boolean(true));
    assert_eq!(functions[1].name, "first");
    assert_eq!(functions[1].return_type, SmtType::Char);
    assert_eq!(*functions[1].body, Expression::String("x".to_string()));
}

#[test]
fn integers_take_a_sign_and_leading_zeros() {
    assert_eq!(body_of(&wrap("42")), Expression::Integer(42));
    assert_eq!(body_of(&wrap("-42")), Expression::Integer(-42));
    assert_eq!(body_of(&wrap("007")), Expression::Integer(7));
    assert_eq!(body_of(&wrap("-0")), Expression::Integer(0));
    assert_eq!(body_of(&wrap("2147483647")), Expression::Integer(i32::MAX));
    assert_eq!(body_of(&wrap("-2147483648")), Expression::Integer(i32::MIN));
}

#[test]
fn integer_out_of_range_is_refused_behind_its_digits() {
    let error = refusal(&wrap("99999999999"));
    assert_eq!(error.position, 37);
    assert_eq!(error.expected.tokens(), vec![Token::Digit, Token::I32]);
    let error = refusal(&wrap("2147483648"));
    assert_eq!(error.position, 36);
    assert_eq!(error.expected.tokens(), vec![Token::Digit, Token::I32]);
    let error = refusal(&wrap("-2147483649"));
    assert_eq!(error.position, 37);
    assert_eq!(error.expected.tokens(), vec![Token::Digit, Token::I32]);
}

#[test]
fn booleans_and_strings_are_literals() {
    assert_eq!(body_of(&wrap("true")), Expression::Boolean(true));
    assert_eq!(body_of(&wrap("false")), Expression::Boolean(false));
    assert_eq!(body_of(&wrap("\"\"")), Expression::String(String::new()));
    assert_eq!(body_of(&wrap("\"a (b) \u{e9}\n\"")), Expression::String("a (b) \u{e9}\n".to_string()));
}

#[test]
fn identifiers_take_letters_digits_and_three_marks() {
    assert_eq!(body_of(&wrap("x")), ident("x"));
    assert_eq!(body_of(&wrap("k!12")), ident("k!12"));
    assert_eq!(body_of(&wrap("a_b.c9")), ident("a_b.c9"));
    assert_eq!(body_of(&wrap("trux")), ident("trux"));
}

#[test]
fn bracketed_forms_are_told_apart_in_order() {
    assert_eq!(
        body_of(&wrap("(= a 1 2)")),
        Expression::Eq(vec![ident("a"), Expression::Integer(1), Expression::Integer(2)])
    );
    assert_eq!(body_of(&wrap("(and a)")), Expression::And(vec![ident("a")]));
    assert_eq!(
        body_of(&wrap("(ite a b c)")),
        Expression::Ite(Box::new(ident("a")), Box::new(ident("b")), Box::new(ident("c")))
    );
    assert_eq!(body_of(&wrap("(_ Char 65)")), Expression::Cast(SmtType::Char, 65));
    assert_eq!(body_of(&wrap("(_ Int -3)")), Expression::Cast(SmtType::Int, -3));
    assert_eq!(body_of(&wrap("(a)")), Expression::Parentheses(Box::new(ident("a"))));
    assert_eq!(
        body_of(&wrap("(f a (g 1))")),
        Expression::FunctionCall(
            "f".to_string(),
            vec![ident("a"), Expression::FunctionCall("g".to_string(), vec![Expression::Integer(1)])]
        )
    );
}

#[test]
fn a_form_that_fails_leaves_the_text_to_the_later_forms() {
    // Two operands are too few for a conditional, so the call takes it.
    assert_eq!(
        body_of(&wrap("(ite a b)")),
        Expression::FunctionCall("ite".to_string(), vec![ident("a"), ident("b")])
    );
    // A conjunction needs an operand; without one the brackets hold a name.
    assert_eq!(body_of(&wrap("(and)")), Expression::Parentheses(Box::new(ident("and"))));
    // A head is matched letter for letter, whatever follows it.
    assert_eq!(body_of(&wrap("(andx y)")), Expression::And(vec![ident("x"), ident("y")]));
    assert_eq!(
        body_of(&wrap("(f truex)")),
        Expression::FunctionCall("f".to_string(), vec![Expression::Boolean(true), ident("x")])
    );
}

#[test]
fn whitespace_between_tokens_does_not_change_the_tree() {
    let plain = "sat ((define-fun A ((p Int)) Int (ite (and (= x 0) (= y 1) (= z (f (_ Char 97)))) 0 5)))";
    let spread = "sat\n(\t( define-fun\r\nA  (  ( p   Int )\n)\tInt\n( ite ( and ( = x  0 )\n(\t= y 1 ) ( =  z ( f ( _  Char   97 ) ) ) )\n0\t5 )  )\n)\n\n";
    let tight = "sat((define-fun A((p Int))Int(ite(and(= x 0)(= y 1)(= z(f(_ Char 97))))0 5)))";
    let tree = model(plain).unwrap();
    assert_eq!(model(spread).unwrap(), tree);
    assert_eq!(model(tight).unwrap(), tree);
}

#[test]
fn text_before_or_behind_the_model_is_refused() {
    let error = refusal(" sat ()");
    assert_eq!(error.position, 0);
    assert_eq!(error.expected.tokens(), vec![Token::Sat]);
    let error = refusal("sat () x");
    assert_eq!(error.position, 7);
    assert_eq!(error.expected.tokens(), vec![Token::EndOfInput]);
    let error = refusal("unsat");
    assert_eq!(error.position, 0);
    assert_eq!(error.expected.tokens(), vec![Token::Sat]);
}

#[test]
fn a_refusal_names_the_farthest_position_and_what_was_missed_there() {
    let error = refusal("");
    assert_eq!((error.position, error.expected.tokens()), (0, vec![Token::Sat]));
    let error = refusal("sat");
    assert_eq!((error.position, error.expected.tokens()), (3, vec![Token::OpenParen]));
    let error = refusal("sat (");
    assert_eq!(
        (error.position, error.expected.tokens()),
        (5, vec![Token::OpenParen, Token::CloseParen])
    );
    let error = refusal("sat ((define-fun 1x () Int 0))");
    assert_eq!((error.position, error.expected.tokens()), (17, vec![Token::Identifier]));
    let error = refusal("sat ((define-fun A () Float 0))");
    assert_eq!(
        (error.position, error.expected.tokens()),
        (22, vec![Token::BoolSort, Token::IntSort, Token::StringSort, Token::CharSort])
    );
    let error = refusal("sat ((define-fun A () Int \"open))");
    assert_eq!(error.position, 26);
    assert_eq!(
        error.expected.tokens(),
        vec![
            Token::OpenParen,
            Token::True,
            Token::False,
            Token::Minus,
            Token::Digit,
            Token::Identifier,
            Token::StringLiteral
        ]
    );
}

#[test]
fn token_names_are_those_of_the_report() {
    assert_eq!(Token::Sat.name(), "\"sat\"");
    assert_eq!(Token::DefineFun.name(), "\"define-fun\"");
    assert_eq!(Token::Identifier.name(), "identifier");
    assert_eq!(Token::StringLiteral.name(), "string literal");
    assert_eq!(Token::EndOfInput.name(), "EOF");
    assert_eq!(Token::DefineFun.text(), "define-fun");
    assert_eq!(Token::Digit.text(), "");
}

#[test]
fn sort_names_convert_by_exact_spelling() {
    assert_eq!(SmtType::try_from("String"), Ok(SmtType::String));
    assert_eq!(SmtType::try_from("Int"), Ok(SmtType::Int));
    assert_eq!(SmtType::try_from("Bool"), Ok(SmtType::Bool));
    assert_eq!(SmtType::try_from("Char"), Ok(SmtType::Char));
    assert_eq!(SmtType::try_from("int"), Err(()));
    assert_eq!(SmtType::try_from("Integer"), Err(()));
    assert_eq!(SmtType::try_from(""), Err(()));
}

#[test]
fn a_position_is_located_by_line_and_column_from_zero() {
    let text = "sat\n(\n  x";
    assert_eq!(locate(text, 0), (0, 0));
    assert_eq!(locate(text, 3), (0, 3));
    assert_eq!(locate(text, 4), (1, 0));
    assert_eq!(locate(text, 5), (1, 1));
    assert_eq!(locate(text, 6), (2, 0));
    assert_eq!(locate(text, 8), (2, 2));
    assert_eq!(locate(text, 9), (2, 3));
    assert_eq!(locate(text, 100), (2, 3));
    assert_eq!(locate("", 0), (0, 0));
    assert_eq!(locate("\u{e9}\u{e9}\nx", 4), (1, 1));
    let error = refusal(text);
    assert_eq!(error.position, 8);
    assert_eq!(locate(text, error.position), (2, 2));
}
