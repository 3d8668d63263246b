use smt_automaton::parser::smt_parser::model;
use smt_automaton::parser::spacing::lies_between_tokens;

const EXAMPLE: &str =
    "sat ((define-fun A () Int (ite (and (= x 0) (= y 1) (= z (f (_ Char 97)))) 0 5)))";

fn spread(text: &str, position: usize, blank: &str) -> String {
    let before: String = text.chars().take(position).collect();
    let behind: String = text.chars().skip(position).collect();
    format!("{}{}{}", before, blank, behind)
}

fn gaps(text: &str) -> Vec<usize> {
    (0..=text.chars().count() + 1).filter(|g| lies_between_tokens(text, *g)).collect()
}

fn unchanged_by_whitespace_at_every_gap(text: &str) {
    let read = model(text);
    for position in gaps(text) {
        for blank in [" ", "\t", "\n", "\r\n", "  \t \n "] {
            let after = model(&spread(text, position, blank));
            match (&read, &after) {
                (Ok(one), Ok(other)) => assert_eq!(one, other),
                (Err(_), Err(_)) => {},
                _ => panic!("position {} of {:?} with {:?}", position, text, blank),
            }
        }
    }
}

#[test]
fn the_gaps_of_a_short_model_are_those_between_its_tokens() {
    //                     0123456789012345678901234
    assert_eq!(gaps("sat ((define-fun A () Int 42))"), vec![
        3, 4, 5, 6, 16, 17, 18, 19, 20, 21, 22, 25, 26, 28, 29, 30
    ]);
}

#[test]
fn the_start_of_the_text_and_places_behind_it_are_no_gaps() {
    assert!(!lies_between_tokens(EXAMPLE, 0));
    assert!(!lies_between_tokens(EXAMPLE, EXAMPLE.len() + 1));
    assert!(lies_between_tokens(EXAMPLE, EXAMPLE.len()));
    assert!(!lies_between_tokens("", 0));
}

#[test]
fn places_inside_a_token_are_no_gaps() {
    // inside `sat`, inside `define-fun`, inside `97`
    assert!(!lies_between_tokens(EXAMPLE, 1));
    assert!(!lies_between_tokens(EXAMPLE, 2));
    assert!(!lies_between_tokens(EXAMPLE, 12));
    assert!(!lies_between_tokens(EXAMPLE, 13));
    let digits = EXAMPLE.find("97").unwrap();
    assert!(lies_between_tokens(EXAMPLE, digits));
    assert!(!lies_between_tokens(EXAMPLE, digits + 1));
    assert!(lies_between_tokens(EXAMPLE, digits + 2));
}

#[test]
fn places_inside_a_string_are_no_gaps_and_places_between_strings_are() {
    let text = "sat ((define-fun A () Int (f \"a b\" c \"d e\")))";
    let first = text.find("\"a").unwrap();
    assert!(lies_between_tokens(text, first));
    for inside in first + 1..first + 5 {
        assert!(!lies_between_tokens(text, inside));
    }
    assert!(lies_between_tokens(text, first + 5));
    let name = text.find(" c ").unwrap();
    assert!(lies_between_tokens(text, name));
    assert!(lies_between_tokens(text, name + 1));
    assert!(lies_between_tokens(text, name + 2));
    let second = text.find("\"d").unwrap();
    assert!(lies_between_tokens(text, second));
    assert!(!lies_between_tokens(text, second + 2));
}

#[test]
fn a_head_that_runs_into_a_name_counts_as_one_token() {
    let text = "sat ((define-fun A () Int (andx y)))";
    let head = text.find("andx").unwrap();
    assert!(lies_between_tokens(text, head));
    assert!(!lies_between_tokens(text, head + 3));
    assert!(lies_between_tokens(text, head + 4));
}

#[test]
fn whitespace_at_any_gap_leaves_the_model_as_it_was() {
    unchanged_by_whitespace_at_every_gap(EXAMPLE);
    unchanged_by_whitespace_at_every_gap("sat ()");
    unchanged_by_whitespace_at_every_gap("sat()");
    unchanged_by_whitespace_at_every_gap(
        "sat ((define-fun k!1 ((x!0 Int) (y String)) Bool (= (f \"a b\" -12 true) (g x!0)))\n (define-fun A () Int (ite a b)))",
    );
    unchanged_by_whitespace_at_every_gap("sat ((define-fun A () Int (andx y)))");
    unchanged_by_whitespace_at_every_gap("sat ((define-fun A () Int (and)))");
    unchanged_by_whitespace_at_every_gap("sat ((define-fun A () Int (f truex 1x \"s\"\"t\")))");
}

#[test]
fn whitespace_at_a_gap_leaves_a_text_that_is_no_model_none() {
    unchanged_by_whitespace_at_every_gap("sat ((define-fun A () Int (ite a b c d)))");
    unchanged_by_whitespace_at_every_gap("sat ((define-fun A () Int 99999999999))");
    unchanged_by_whitespace_at_every_gap("sat ((define-fun A () Int \"open))");
    unchanged_by_whitespace_at_every_gap("sat (() x");
}

#[test]
fn whitespace_inside_a_token_can_change_what_is_read() {
    let text = "sat ((define-fun A () Int (f ab)))";
    let inside = text.find("ab").unwrap() + 1;
    assert!(!lies_between_tokens(text, inside));
    assert_ne!(model(&spread(text, inside, " ")).unwrap(), model(text).unwrap());
}

#[test]
fn gaps_stay_gaps_when_whitespace_is_put_in() {
    let listed = gaps(EXAMPLE);
    for at in [3usize, 6, 26, 40] {
        assert!(listed.contains(&at));
        let blank = " \n";
        let after = spread(EXAMPLE, at, blank);
        for gap in &listed {
            let far = if *gap < at { *gap } else { *gap + 2 };
            let near = if *gap <= at { *gap } else { *gap + 2 };
            assert!(lies_between_tokens(&after, far));
            assert!(lies_between_tokens(&after, near));
        }
    }
}
