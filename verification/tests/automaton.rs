use petgraph::graph::DiGraph;
use smt_automaton::graph::{
    get_label_for_edge, get_node_from_eq, graph_from_ite_chain, graph_from_model, label_char,
    model_fits, Error,
};
use smt_automaton::parser::smt_parser::model;
use smt_automaton::parser::{Expression, Function, Model, SmtType};

fn ident(name: &str) -> Expression {
    Expression::Identifier(name.to_string())
}

fn state(name: &str, id: i32) -> Expression {
    Expression::Eq(vec![ident(name), Expression::Integer(id)])
}

fn label(code: i32) -> Expression {
    Expression::Eq(vec![
        ident("z"),
        Expression::FunctionCall("f".to_string(), vec![Expression::Cast(SmtType::Char, code)]),
    ])
}

fn link(source: i32, target: i32, code: i32, rest: Expression) -> Expression {
    Expression::Ite(
        Box::new(Expression::And(vec![state("x", source), state("y", target), label(code)])),
        Box::new(Expression::Boolean(true)),
        Box::new(rest),
    )
}

fn chain(triples: &[(i32, i32, i32)]) -> Expression {
    let mut expression = Expression::Boolean(false);
    for (source, target, code) in triples.iter().rev() {
        expression = link(*source, *target, *code, expression);
    }
    expression
}

fn named(name: &str, body: Expression) -> Function {
    Function { name: name.to_string(), params: vec![], return_type: SmtType::Bool, body: Box::new(body) }
}

fn nodes(graph: &DiGraph<i32, String>) -> Vec<i32> {
    graph.raw_nodes().iter().map(|node| node.weight).collect()
}

fn edges(graph: &DiGraph<i32, String>) -> Vec<(i32, i32, String)> {
    graph
        .raw_edges()
        .iter()
        .map(|edge| (graph[edge.source()], graph[edge.target()], edge.weight.clone()))
        .collect()
}

fn build(model: Model) -> Result<DiGraph<i32, String>, Error> {
    assert!(model_fits(&model));
    graph_from_model(model)
}

fn message(result: Result<DiGraph<i32, String>, Error>) -> String {
    match result {
        Ok(_) => panic!("a graph was built"),
        Err(error) => error.to_string(),
    }
}

#[test]
fn chain_of_distinct_triples_gives_its_states_and_edges_in_order() {
    let triples = [(0, 1, 97), (1, 2, 98), (2, 0, 99), (3, 3, 100)];
    let graph = build(vec![named("A", chain(&triples))]).unwrap();
    assert_eq!(nodes(&graph), vec![0, 1, 2, 3]);
    assert_eq!(
        edges(&graph),
        vec![
            (0, 1, "a".to_string()),
            (1, 2, "b".to_string()),
            (2, 0, "c".to_string()),
            (3, 3, "d".to_string())
        ]
    );
}

#[test]
fn a_state_named_twice_is_one_node() {
    let graph = build(vec![named("A", chain(&[(7, 1, 97), (7, 2, 98)]))]).unwrap();
    assert_eq!(nodes(&graph), vec![7, 1, 2]);
    assert_eq!(graph.node_count(), 3);
    let listed = edges(&graph);
    assert_eq!(listed, vec![(7, 1, "a".to_string()), (7, 2, "b".to_string())]);
    assert_eq!(graph.raw_edges()[0].source(), graph.raw_edges()[1].source());
}

#[test]
fn parallel_edges_are_kept() {
    let graph = build(vec![named("A", chain(&[(1, 2, 97), (1, 2, 97)]))]).unwrap();
    assert_eq!(nodes(&graph), vec![1, 2]);
    assert_eq!(graph.edge_count(), 2);
}

#[test]
fn model_without_function_a_is_an_error() {
    let text = message(build(vec![named("B", chain(&[(0, 1, 97)]))]));
    assert_eq!(text, "invalid input provided (Model is missing `A` function)");
    assert_eq!(
        message(build(vec![])),
        "invalid input provided (Model is missing `A` function)"
    );
    assert_eq!(
        message(build(vec![named("a", Expression::Integer(0)), named("AA", Expression::Integer(0))])),
        "invalid input provided (Model is missing `A` function)"
    );
}

#[test]
fn the_first_function_named_a_is_taken() {
    let graph = build(vec![
        named("B", chain(&[(9, 9, 97)])),
        named("A", chain(&[(0, 1, 97)])),
        named("A", chain(&[(5, 6, 98)])),
    ])
    .unwrap();
    assert_eq!(nodes(&graph), vec![0, 1]);
}

#[test]
fn conjunction_of_two_equalities_is_malformed() {
    let condition = Expression::And(vec![state("x", 0), state("y", 1)]);
    let body = Expression::Ite(
        Box::new(condition),
        Box::new(Expression::Integer(0)),
        Box::new(Expression::Integer(5)),
    );
    assert_eq!(
        message(build(vec![named("A", body)])),
        "invalid input provided (malformed and expression)"
    );
}

#[test]
fn conjunction_with_a_part_that_is_no_equality_is_malformed() {
    let condition = Expression::And(vec![state("x", 0), ident("y"), label(97)]);
    let body = Expression::Ite(
        Box::new(condition),
        Box::new(Expression::Integer(0)),
        Box::new(Expression::Integer(5)),
    );
    assert_eq!(
        message(build(vec![named("A", body)])),
        "invalid input provided (malformed and expression)"
    );
}

#[test]
fn condition_that_is_no_conjunction_is_malformed() {
    let body = Expression::Ite(
        Box::new(state("x", 0)),
        Box::new(Expression::Integer(0)),
        Box::new(Expression::Integer(5)),
    );
    assert_eq!(
        message(build(vec![named("A", body)])),
        "invalid input provided (malformed ite expression)"
    );
}

#[test]
fn equality_of_the_wrong_shape_is_malformed() {
    let wide = Expression::Eq(vec![ident("x"), Expression::Integer(0), Expression::Integer(1)]);
    let body = Expression::Ite(
        Box::new(Expression::And(vec![wide, state("y", 1), label(97)])),
        Box::new(Expression::Integer(0)),
        Box::new(Expression::Integer(5)),
    );
    assert_eq!(
        message(build(vec![named("A", body)])),
        "invalid input provided (malformed eq expression)"
    );
    let swapped = Expression::Eq(vec![Expression::Integer(1), ident("y")]);
    let body = Expression::Ite(
        Box::new(Expression::And(vec![state("x", 0), swapped, label(97)])),
        Box::new(Expression::Integer(0)),
        Box::new(Expression::Integer(5)),
    );
    assert_eq!(
        message(build(vec![named("A", body)])),
        "invalid input provided (malformed eq expression)"
    );
    let unlabelled = Expression::And(vec![state("x", 0), state("y", 1), state("z", 2)]);
    let body = Expression::Ite(
        Box::new(unlabelled),
        Box::new(Expression::Integer(0)),
        Box::new(Expression::Integer(5)),
    );
    assert_eq!(
        message(build(vec![named("A", body)])),
        "invalid input provided (malformed eq expression)"
    );
}

#[test]
fn label_that_is_no_character_cast_is_missing() {
    let call = |arguments: Vec<Expression>| {
        Expression::Eq(vec![ident("z"), Expression::FunctionCall("f".to_string(), arguments)])
    };
    for arguments in [
        vec![Expression::Cast(SmtType::Int, 97)],
        vec![Expression::Integer(97)],
        vec![Expression::Cast(SmtType::Char, 97), Expression::Cast(SmtType::Char, 98)],
        vec![],
    ] {
        let body = Expression::Ite(
            Box::new(Expression::And(vec![state("x", 0), state("y", 1), call(arguments)])),
            Box::new(Expression::Integer(0)),
            Box::new(Expression::Integer(5)),
        );
        assert_eq!(
            message(build(vec![named("A", body)])),
            "invalid input provided (missing label for edge)"
        );
    }
}

#[test]
fn the_first_defect_on_the_way_is_reported_and_no_graph() {
    let broken = Expression::Ite(
        Box::new(ident("c")),
        Box::new(Expression::Integer(0)),
        Box::new(Expression::Integer(5)),
    );
    let body = link(0, 1, 97, link(1, 2, 98, broken));
    assert_eq!(
        message(build(vec![named("A", body)])),
        "invalid input provided (malformed ite expression)"
    );
    // The source is looked at before the label.
    let both = Expression::And(vec![
        Expression::Eq(vec![ident("x")]),
        state("y", 1),
        Expression::Eq(vec![ident("z"), Expression::FunctionCall("f".to_string(), vec![])]),
    ]);
    let body = Expression::Ite(
        Box::new(both),
        Box::new(Expression::Integer(0)),
        Box::new(Expression::Integer(5)),
    );
    assert_eq!(
        message(build(vec![named("A", body)])),
        "invalid input provided (malformed eq expression)"
    );
}

#[test]
fn only_the_else_branch_is_followed() {
    let hidden = link(8, 9, 120, Expression::Integer(0));
    let body = Expression::Ite(
        Box::new(Expression::And(vec![state("x", 0), state("y", 1), label(97)])),
        Box::new(hidden),
        Box::new(Expression::Integer(5)),
    );
    let graph = build(vec![named("A", body)]).unwrap();
    assert_eq!(nodes(&graph), vec![0, 1]);
    assert_eq!(edges(&graph), vec![(0, 1, "a".to_string())]);
}

#[test]
fn body_that_is_no_conditional_gives_an_empty_graph() {
    let graph = build(vec![named("A", Expression::Integer(3))]).unwrap();
    assert_eq!(graph.node_count(), 0);
    assert_eq!(graph.edge_count(), 0);
    let graph = graph_from_ite_chain(&ident("x")).unwrap();
    assert_eq!(graph.node_count(), 0);
}

#[test]
fn character_cast_decodes_to_its_letter() {
    assert_eq!(get_label_for_edge(&vec![
        ident("z"),
        Expression::FunctionCall("f".to_string(), vec![Expression::Cast(SmtType::Char, 65)])
    ])
    .unwrap(), 'A');
    assert_eq!(get_label_for_edge(&vec![
        ident("z"),
        Expression::FunctionCall("f".to_string(), vec![Expression::Cast(SmtType::Char, 97)])
    ])
    .unwrap(), 'a');
    let graph = build(vec![named("A", chain(&[(0, 1, 65)]))]).unwrap();
    assert_eq!(edges(&graph), vec![(0, 1, "A".to_string())]);
}

#[test]
fn label_code_is_taken_by_its_low_eight_bits() {
    assert_eq!(label_char(65), 'A');
    assert_eq!(label_char(97), 'a');
    assert_eq!(label_char(0), '\u{0}');
    assert_eq!(label_char(255), '\u{ff}');
    assert_eq!(label_char(256 + 66), 'B');
    assert_eq!(label_char(-1), '\u{ff}');
    assert_eq!(label_char(-159), 'a');
    assert_eq!(label_char(i32::MIN), '\u{0}');
}

#[test]
fn node_of_an_equality_is_its_integer() {
    assert_eq!(get_node_from_eq(&vec![ident("x"), Expression::Integer(-4)]).unwrap(), -4);
    let error = get_node_from_eq(&vec![ident("x")]).unwrap_err();
    assert_eq!(error.to_string(), "invalid input provided (malformed eq expression)");
    let error = get_node_from_eq(&vec![ident("x"), Expression::Boolean(true)]).unwrap_err();
    assert_eq!(error.to_string(), "invalid input provided (malformed eq expression)");
}

#[test]
fn error_shows_its_message_in_a_frame() {
    assert_eq!(Error::new("anything").to_string(), "invalid input provided (anything)");
    assert_eq!(Error::new("").to_string(), "invalid input provided ()");
}

#[test]
fn literal_example_gives_two_nodes_and_one_edge() {
    let parsed =
        model("sat ((define-fun A () Int (ite (and (= x 0) (= y 1) (= z (f (_ Char 97)))) 0 5)))")
            .unwrap();
    assert_eq!(parsed.len(), 1);
    assert_eq!(parsed[0].name, "A");
    let graph = build(parsed).unwrap();
    assert_eq!(nodes(&graph), vec![0, 1]);
    assert_eq!(edges(&graph), vec![(0, 1, "a".to_string())]);
}

#[test]
fn whitespace_between_tokens_does_not_change_the_graph() {
    let plain = "sat ((define-fun A () Int (ite (and (= x 0) (= y 1) (= z (f (_ Char 97)))) 0 (ite (and (= x 1) (= y 0) (= z (f (_ Char 98)))) 0 5))))";
    let spread = plain.replace(' ', " \n\t ").replace('(', "( ").replace(')', " )");
    let one = build(model(plain).unwrap()).unwrap();
    let other = build(model(&spread).unwrap()).unwrap();
    assert_eq!(nodes(&one), vec![0, 1]);
    assert_eq!(nodes(&other), nodes(&one));
    assert_eq!(edges(&other), edges(&one));
    assert_eq!(edges(&one), vec![(0, 1, "a".to_string()), (1, 0, "b".to_string())]);
}
